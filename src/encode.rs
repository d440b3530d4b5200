use vstd::prelude::*;

verus! {

/// Whether serde_json's parser accepts the text as one JSON value.
pub uninterp spec fn json_accepts(s: Seq<char>) -> bool;

/// The MessagePack encoding of the JSON value that the text parses to.
pub uninterp spec fn msgpack_of(s: Seq<char>) -> Seq<u8>;

/// Relies on `serde_json::from_str` into a `serde_json::Value`, which
/// succeeds exactly on the texts that its parser accepts, and on
/// `rmp_serde::to_vec` of that value, which depends on the value alone and
/// does not fail on it: the value's maps and arrays have known lengths, its
/// depth stays under serde_json's nesting limit (128), below rmp_serde's
/// (1024), and writing to a `Vec` does not fail.
#[verifier::external_body]
fn parse_and_encode(s: &str) -> (r: Option<Vec<u8>>)
    ensures
        r is Some <==> json_accepts(s@),
        r matches Some(b) ==> b@ == msgpack_of(s@),
{
    match serde_json::from_str::<serde_json::Value>(s) {
        Err(_) => None,
        Ok(v) => rmp_serde::to_vec(&v).ok(),
    }
}

/// Why a request could not be logged.
#[derive(Clone, Copy, Debug, PartialEq, Eq, Structural)]
pub enum LogError {
    /// The record text is not one JSON value, or could not be encoded.
    Encoding,
    /// The capture time has no fixed-width rendering.
    TimeOutOfRange,
    /// The encoded record is too long for its length prefix.
    RecordTooLarge,
    /// A directory or file could not be created, or the append failed.
    Io,
    /// Fewer bytes were appended than requested.
    Write,
}

/// The HTTP status of a failed request: `400` for a malformed record, `500`
/// for every other failure.
pub fn status_code(e: LogError) -> (r: u16)
    ensures
        r == (if e == LogError::Encoding { 400u16 } else { 500u16 }),
{
    match e {
        LogError::Encoding => 400,
        _ => 500,
    }
}

/// Parses the record text as one JSON value and encodes that value in
/// MessagePack. Text that the parser rejects gives `Encoding`.
pub fn json_to_bytes(result: &String) -> (r: Result<Vec<u8>, LogError>)
    ensures
        r is Ok <==> json_accepts(result@),
        r matches Ok(b) ==> b@ == msgpack_of(result@),
        r is Err ==> r == Err::<Vec<u8>, LogError>(LogError::Encoding),
{
    match parse_and_encode(result.as_str()) {
        None => Err(LogError::Encoding),
        Some(bytes) => Ok(bytes),
    }
}

} // verus!
