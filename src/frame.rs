use vstd::prelude::*;

verus! {

/// Four bytes holding `n` in big-endian order.
pub open spec fn be_bytes(n: u32) -> Seq<u8> {
    seq![(n >> 24u32) as u8, (n >> 16u32) as u8, (n >> 8u32) as u8, n as u8]
}

/// The number held in big-endian order by the first four bytes of `s`.
#[verifier::opaque]
pub open spec fn be_value(s: Seq<u8>) -> u32
    recommends
        s.len() >= 4,
{
    ((s[0] as u32) << 24u32) | ((s[1] as u32) << 16u32) | ((s[2] as u32) << 8u32) | (s[3] as u32)
}

/// A record preceded by its length as four big-endian bytes.
pub open spec fn framed(record: Seq<u8>) -> Seq<u8> {
    be_bytes(record.len() as u32) + record
}

/// Every record fits the four-byte length prefix.
pub open spec fn all_frameable(records: Seq<Seq<u8>>) -> bool {
    forall|i: int| 0 <= i < records.len() ==> (#[trigger] records[i]).len() <= u32::MAX
}

/// The framed records one after another.
pub open spec fn frames_of(records: Seq<Seq<u8>>) -> Seq<u8>
    decreases records.len(),
{
    if records.len() == 0 {
        Seq::empty()
    } else {
        framed(records[0]) + frames_of(records.drop_first())
    }
}

/// Splits a byte stream into length-prefixed records; `None` when the stream
/// ends inside a prefix or inside a record.
pub open spec fn decode_frames(data: Seq<u8>) -> Option<Seq<Seq<u8>>>
    decreases data.len(),
{
    if data.len() == 0 {
        Some(Seq::empty())
    } else if data.len() < 4 {
        None
    } else {
        let n = be_value(data) as int;
        if n > data.len() - 4 {
            None
        } else {
            match decode_frames(data.skip(4 + n)) {
                Some(rest) => Some(seq![data.subrange(4, 4 + n)] + rest),
                None => None,
            }
        }
    }
}

proof fn lemma_be_round_trip(n: u32)
    ensures
        be_value(be_bytes(n)) == n,
{
    reveal(be_value);
    assert(((((n >> 24u32) as u8) as u32) << 24u32) | ((((n >> 16u32) as u8) as u32) << 16u32)
        | ((((n >> 8u32) as u8) as u32) << 8u32) | ((n as u8) as u32) == n) by (bit_vector);
}

proof fn lemma_be_value_prefix(s: Seq<u8>, t: Seq<u8>)
    requires
        s.len() == 4,
    ensures
        be_value(s + t) == be_value(s),
{
    reveal(be_value);
    assert((s + t)[0] == s[0] && (s + t)[1] == s[1] && (s + t)[2] == s[2] && (s + t)[3] == s[3]);
}

proof fn lemma_decode_step(r: Seq<u8>, rest: Seq<u8>)
    requires
        r.len() <= u32::MAX,
    ensures
        decode_frames(framed(r) + rest) == match decode_frames(rest) {
            Some(tail) => Some(seq![r] + tail),
            None => None,
        },
{
    let data = framed(r) + rest;
    let n = r.len() as u32;
    lemma_be_round_trip(n);
    lemma_be_value_prefix(be_bytes(n), r + rest);
    assert(data =~= be_bytes(n) + (r + rest));
    assert(data.skip(4 + r.len() as int) =~= rest);
    assert(data.subrange(4, 4 + r.len() as int) =~= r);
}

/// A stream made of framed records splits back into exactly those records, so
/// a file that holds `n` whole appends yields `n` records.
pub proof fn lemma_decode_frames_of(records: Seq<Seq<u8>>)
    requires
        all_frameable(records),
    ensures
        decode_frames(frames_of(records)) == Some(records),
    decreases records.len(),
{
    if records.len() == 0 {
        return;
    }
    let r = records[0];
    let tail = records.drop_first();
    assert(all_frameable(tail)) by {
        assert forall|i: int| 0 <= i < tail.len() implies (#[trigger] tail[i]).len() <= u32::MAX by {
            assert(tail[i] == records[i + 1]);
        }
    }
    lemma_decode_frames_of(tail);
    lemma_decode_step(r, frames_of(tail));
    assert(seq![r] + tail =~= records);
}

/// Appending one more framed record extends the stream of framed records.
pub proof fn lemma_frames_of_push(records: Seq<Seq<u8>>, r: Seq<u8>)
    ensures
        frames_of(records.push(r)) == frames_of(records) + framed(r),
    decreases records.len(),
{
    if records.len() == 0 {
        assert(records.push(r).drop_first() =~= Seq::<Seq<u8>>::empty());
        assert(frames_of(records.push(r).drop_first()) == Seq::<u8>::empty());
        assert(records.push(r)[0] == r);
        assert(frames_of(records.push(r)) =~= frames_of(records) + framed(r));
    } else {
        lemma_frames_of_push(records.drop_first(), r);
        assert(records.push(r).drop_first() =~= records.drop_first().push(r));
        assert(records.push(r)[0] == records[0]);
        assert(frames_of(records.push(r)) == framed(records[0]) + (frames_of(records.drop_first())
            + framed(r)));
        assert(frames_of(records.push(r)) =~= frames_of(records) + framed(r));
    }
}

/// A file that received the framed records `records` one append after
/// another, and then the framed record `r`, splits into exactly those
/// records followed by `r`.
pub proof fn lemma_appended_records_recoverable(records: Seq<Seq<u8>>, r: Seq<u8>)
    requires
        all_frameable(records.push(r)),
    ensures
        decode_frames(frames_of(records) + framed(r)) == Some(records.push(r)),
{
    lemma_frames_of_push(records, r);
    lemma_decode_frames_of(records.push(r));
}

/// Prefixes a record with its length as four big-endian bytes; `None` when
/// the length does not fit in four bytes.
pub fn frame_record(record: &Vec<u8>) -> (r: Option<Vec<u8>>)
    ensures
        r is Some <==> record@.len() <= u32::MAX,
        r matches Some(f) ==> f@ == framed(record@),
{
    if record.len() > 0xffff_ffffusize {
        return None;
    }
    let n: u32 = record.len() as u32;
    let mut out: Vec<u8> = Vec::new();
    out.push((n >> 24u32) as u8);
    out.push((n >> 16u32) as u8);
    out.push((n >> 8u32) as u8);
    out.push(n as u8);
    let mut i: usize = 0;
    while i < record.len()
        invariant
            i <= record@.len(),
            out@ == be_bytes(n) + record@.take(i as int),
        decreases record@.len() - i,
    {
        out.push(record[i]);
        assert(record@.take(i as int + 1) =~= record@.take(i as int).push(record@[i as int]));
        i = i + 1;
    }
    assert(record@.take(i as int) =~= record@);
    Some(out)
}

/// The records of `out`, followed by those of `rest` when it holds any.
pub open spec fn prepend_records(out: Seq<Seq<u8>>, rest: Option<Seq<Seq<u8>>>) -> Option<
    Seq<Seq<u8>>,
> {
    match rest {
        Some(r) => Some(out + r),
        None => None,
    }
}

/// The contents of each record.
pub open spec fn records_view(v: Seq<Vec<u8>>) -> Seq<Seq<u8>> {
    v.map_values(|r: Vec<u8>| r@)
}

fn read_be_u32(data: &Vec<u8>, pos: usize) -> (r: u32)
    requires
        pos + 4 <= data@.len(),
    ensures
        r == be_value(data@.skip(pos as int)),
{
    reveal(be_value);
    let len = data.len();
    assert(pos + 3 < len);
    let b0 = data[pos] as u32;
    let b1 = data[pos + 1] as u32;
    let b2 = data[pos + 2] as u32;
    let b3 = data[pos + 3] as u32;
    let ghost s = data@.skip(pos as int);
    assert(s[0] == data@[pos as int] && s[1] == data@[pos + 1] && s[2] == data@[pos + 2] && s[3]
        == data@[pos + 3]);
    (b0 << 24u32) | (b1 << 16u32) | (b2 << 8u32) | b3
}

fn copy_range(data: &Vec<u8>, start: usize, end: usize) -> (r: Vec<u8>)
    requires
        start <= end <= data@.len(),
    ensures
        r@ == data@.subrange(start as int, end as int),
{
    let mut out: Vec<u8> = Vec::new();
    let mut i: usize = start;
    while i < end
        invariant
            start <= i <= end,
            end <= data@.len(),
            out@ == data@.subrange(start as int, i as int),
        decreases end - i,
    {
        out.push(data[i]);
        assert(data@.subrange(start as int, i + 1) =~= data@.subrange(start as int, i as int).push(
            data@[i as int],
        ));
        i = i + 1;
    }
    out
}

/// Splits the contents of a partition file into its records; `None` when the
/// contents end inside a length prefix or inside a record.
pub fn split_records(data: &Vec<u8>) -> (r: Option<Vec<Vec<u8>>>)
    ensures
        r is Some <==> decode_frames(data@) is Some,
        r matches Some(v) ==> decode_frames(data@) == Some(records_view(v@)),
{
    let mut out: Vec<Vec<u8>> = Vec::new();
    let mut pos: usize = 0;
    assert(data@.skip(0) =~= data@);
    assert(records_view(out@) =~= Seq::<Seq<u8>>::empty());
    loop
        invariant
            pos <= data@.len(),
            decode_frames(data@) == prepend_records(records_view(out@), decode_frames(data@.skip(pos as int))),
        decreases data@.len() - pos,
    {
        let ghost rem = data@.skip(pos as int);
        if pos == data.len() {
            assert(rem.len() == 0);
            assert(records_view(out@) + Seq::<Seq<u8>>::empty() =~= records_view(out@));
            return Some(out);
        }
        if data.len() - pos < 4 {
            return None;
        }
        let n = read_be_u32(data, pos);
        if n as usize > data.len() - pos - 4 {
            return None;
        }
        let next = pos + 4 + n as usize;
        let chunk = copy_range(data, pos + 4, next);
        assert(rem.skip(4 + n as int) =~= data@.skip(next as int));
        assert(rem.subrange(4, 4 + n as int) =~= chunk@);
        let ghost before = records_view(out@);
        out.push(chunk);
        assert(records_view(out@) =~= before.push(chunk@));
        proof {
            match decode_frames(data@.skip(next as int)) {
                Some(rest) => {
                    assert(before + (seq![chunk@] + rest) =~= before.push(chunk@) + rest);
                },
                None => {},
            }
        }
        pos = next;
    }
}

} // verus!
