use vstd::prelude::*;
use vstd::string::StringExecFns;
use crate::encode::{json_accepts, json_to_bytes, msgpack_of, LogError};
use crate::frame::{frame_record, framed};
use crate::partition::{date, date_hour_min, day_text, minute_text, LocalTime};
use crate::record::{build_record, record_text};

verus! {

/// The directory of a day's partition files.
pub open spec fn log_directory(day: Seq<char>) -> Seq<char> {
    "./data/log_msgpack/"@ + day + "/"@
}

/// The partition file of a minute, inside its day's directory.
pub open spec fn log_file(day: Seq<char>, minute: Seq<char>) -> Seq<char> {
    log_directory(day) + minute + ".msgpack"@
}

/// The day and minute keys of one capture time.
#[derive(Debug)]
pub struct PartitionKey {
    pub day: String,
    pub minute: String,
}

impl PartitionKey {
    /// Both keys of a reading, taken from that one reading; `None` when the
    /// reading has no fixed-width form.
    pub fn at(t: &LocalTime) -> (r: Option<PartitionKey>)
        ensures
            r is Some <==> t.renderable(),
            r matches Some(k) ==> k.day@ == day_text(*t) && k.minute@ == minute_text(*t),
    {
        match (date(t), date_hour_min(t)) {
            (Some(day), Some(minute)) => Some(PartitionKey { day, minute }),
            _ => None,
        }
    }

    /// The directory that holds this key's file.
    pub fn directory(&self) -> (r: String)
        ensures
            r@ == log_directory(self.day@),
    {
        let mut s = String::new();
        s.append("./data/log_msgpack/");
        s.append(self.day.as_str());
        s.append("/");
        s
    }

    /// The path of this key's partition file.
    pub fn path(&self) -> (r: String)
        ensures
            r@ == log_file(self.day@, self.minute@),
    {
        let mut s = self.directory();
        s.append(self.minute.as_str());
        s.append(".msgpack");
        s
    }
}

/// What one request appends, and where.
#[derive(Debug)]
pub struct LogEntry {
    /// The day directory, to be created if missing.
    pub directory: String,
    /// The minute file, to be created if missing and then appended to.
    pub path: String,
    /// The length-prefixed encoded record.
    pub bytes: Vec<u8>,
}

/// Places an encoded record at the partition of a capture time.
pub fn entry_for(t: &LocalTime, encoded: Vec<u8>) -> (r: Result<LogEntry, LogError>)
    ensures
        !t.renderable() ==> r == Err::<LogEntry, LogError>(LogError::TimeOutOfRange),
        t.renderable() && encoded@.len() > u32::MAX ==> r == Err::<LogEntry, LogError>(
            LogError::RecordTooLarge,
        ),
        t.renderable() && encoded@.len() <= u32::MAX <==> r is Ok,
        r matches Ok(e) ==> {
            &&& e.directory@ == log_directory(day_text(*t))
            &&& e.path@ == log_file(day_text(*t), minute_text(*t))
            &&& e.bytes@ == framed(encoded@)
        },
{
    let key = match PartitionKey::at(t) {
        None => return Err(LogError::TimeOutOfRange),
        Some(k) => k,
    };
    let bytes = match frame_record(&encoded) {
        None => return Err(LogError::RecordTooLarge),
        Some(b) => b,
    };
    Ok(LogEntry { directory: key.directory(), path: key.path(), bytes })
}

/// The encoded record of a request: the MessagePack encoding of its record text.
pub open spec fn encoded_record(headers: Seq<(String, String)>, body: Seq<char>) -> Seq<u8> {
    msgpack_of(record_text(headers, body))
}

/// A request can be logged at `t`: its record text is one JSON value, the
/// time has a fixed-width form, and the encoding fits its length prefix.
pub open spec fn loggable(headers: Seq<(String, String)>, body: Seq<char>, t: LocalTime) -> bool {
    &&& json_accepts(record_text(headers, body))
    &&& t.renderable()
    &&& encoded_record(headers, body).len() <= u32::MAX
}

/// Builds, encodes and frames the record of a request captured at `t`, and
/// says where it goes. A body that does not make the record one JSON value
/// gives `Encoding`, and nothing is to be written.
pub fn prepare_log_entry(headers: &Vec<(String, String)>, body: &str, t: &LocalTime) -> (r:
    Result<LogEntry, LogError>)
    ensures
        r is Ok <==> loggable(headers@, body@, *t),
        !json_accepts(record_text(headers@, body@)) ==> r == Err::<LogEntry, LogError>(
            LogError::Encoding,
        ),
        json_accepts(record_text(headers@, body@)) && !t.renderable() ==> r == Err::<
            LogEntry,
            LogError,
        >(LogError::TimeOutOfRange),
        json_accepts(record_text(headers@, body@)) && t.renderable() && encoded_record(
            headers@,
            body@,
        ).len() > u32::MAX ==> r == Err::<LogEntry, LogError>(LogError::RecordTooLarge),
        r matches Ok(e) ==> {
            &&& e.directory@ == log_directory(day_text(*t))
            &&& e.path@ == log_file(day_text(*t), minute_text(*t))
            &&& e.bytes@ == framed(encoded_record(headers@, body@))
        },
{
    let text = build_record(headers, body);
    let encoded = match json_to_bytes(&text) {
        Err(e) => return Err(e),
        Ok(b) => b,
    };
    entry_for(t, encoded)
}

/// Relies on `std::time::SystemTime::now`, converted by chrono's
/// `From<SystemTime> for DateTime<Local>` (which also takes clocks set before
/// 1970), and on the `Datelike` and `Timelike` field accessors: month 1 to 12,
/// day 1 to 31, hour 0 to 23, minute and second 0 to 59. The reading depends
/// on the clock and the host's time zone.
#[verifier::external_body]
fn local_now() -> (r: LocalTime)
    ensures
        r.wf(),
{
    let now = chrono::DateTime::<chrono::Local>::from(std::time::SystemTime::now());
    LocalTime {
        year: chrono::Datelike::year(&now),
        month: chrono::Datelike::month(&now),
        day: chrono::Datelike::day(&now),
        hour: chrono::Timelike::hour(&now),
        minute: chrono::Timelike::minute(&now),
        second: chrono::Timelike::second(&now),
    }
}

/// Reads the local clock once.
pub fn capture_time() -> (r: LocalTime)
    ensures
        r.wf(),
{
    local_now()
}

/// Prepares the log entry of a request, captured at the current local time,
/// read once, so that its directory and file agree.
pub fn log_msgpack(headers: &Vec<(String, String)>, body: &str) -> (r: Result<LogEntry, LogError>)
    ensures
        !json_accepts(record_text(headers@, body@)) <==> r == Err::<LogEntry, LogError>(
            LogError::Encoding,
        ),
        r == Err::<LogEntry, LogError>(LogError::RecordTooLarge) ==> encoded_record(
            headers@,
            body@,
        ).len() > u32::MAX,
        r == Err::<LogEntry, LogError>(LogError::TimeOutOfRange) ==> json_accepts(
            record_text(headers@, body@),
        ),
        r matches Err(e) ==> e == LogError::Encoding || e == LogError::TimeOutOfRange || e
            == LogError::RecordTooLarge,
        r matches Ok(e) ==> exists|t: LocalTime|
            {
                &&& loggable(headers@, body@, t)
                &&& e.directory@ == log_directory(day_text(t))
                &&& e.path@ == log_file(day_text(t), minute_text(t))
            },
        r matches Ok(e) ==> e.bytes@ == framed(encoded_record(headers@, body@)),
{
    let t = capture_time();
    prepare_log_entry(headers, body, &t)
}

} // verus!
