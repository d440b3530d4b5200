use vstd::prelude::*;
use vstd::string::StringExecFns;

verus! {

/// One header line: `name: value` followed by the two characters `\` and `n`,
/// which act as a line separator inside the quoted `headers` text.
pub open spec fn header_line(name: Seq<char>, value: Seq<char>) -> Seq<char> {
    name + seq![':', ' '] + value + seq!['\\', 'n']
}

/// The header lines of a header set, in the order given.
pub open spec fn header_lines(headers: Seq<(String, String)>) -> Seq<char>
    decreases headers.len(),
{
    if headers.len() == 0 {
        Seq::empty()
    } else {
        header_lines(headers.drop_last()) + header_line(
            headers.last().0@,
            headers.last().1@,
        )
    }
}

/// The canonical record text: `{"headers":"<lines>","body":<body>}`.
pub open spec fn record_text(headers: Seq<(String, String)>, body: Seq<char>) -> Seq<char> {
    "{\"headers\":\""@ + header_lines(headers) + "\",\"body\":"@ + body + "}"@
}

/// `part` occurs in `text` starting at position `at`.
pub open spec fn occurs_at(text: Seq<char>, part: Seq<char>, at: int) -> bool {
    0 <= at && at + part.len() <= text.len() && text.subrange(at, at + part.len()) == part
}

/// The headers text holds the line of every submitted header, and the record
/// text holds the headers text and the body in their places.
pub proof fn lemma_record_holds_each_header(headers: Seq<(String, String)>, body: Seq<char>, i: int)
    requires
        0 <= i < headers.len(),
    ensures
        exists|at: int| occurs_at(header_lines(headers), header_line(headers[i].0@, headers[i].1@), at),
        occurs_at(record_text(headers, body), header_lines(headers), "{\"headers\":\""@.len() as int),
        occurs_at(
            record_text(headers, body),
            body,
            ("{\"headers\":\""@.len() + header_lines(headers).len() + "\",\"body\":"@.len()) as int,
        ),
    decreases headers.len(),
{
    let last = headers.len() - 1;
    let prev = header_lines(headers.drop_last());
    let line = header_line(headers[i].0@, headers[i].1@);
    if i == last {
        assert(header_lines(headers).subrange(prev.len() as int, (prev.len() + line.len()) as int) =~= line);
        assert(occurs_at(header_lines(headers), line, prev.len() as int));
    } else {
        lemma_record_holds_each_header(headers.drop_last(), body, i);
        assert(headers.drop_last()[i] == headers[i]);
        let at = choose|at: int| occurs_at(prev, line, at);
        assert(header_lines(headers).subrange(at, at + line.len()) =~= prev.subrange(at, at + line.len()));
        assert(occurs_at(header_lines(headers), line, at));
    }
    let open_ = "{\"headers\":\""@;
    let mid = "\",\"body\":"@;
    let r = record_text(headers, body);
    let h = header_lines(headers);
    let a = open_.len() as int;
    let b = a + h.len() + mid.len();
    assert(r.subrange(a, a + h.len()) =~= h);
    assert(r.subrange(b, b + body.len()) =~= body);
}

/// Appends the line of one header to the record text being built.
pub fn append_str(result: &mut String, key: &str, value: &str)
    ensures
        final(result)@ == old(result)@ + header_line(key@, value@),
{
    result.append(key);
    result.append(": ");
    result.append(value);
    result.append("\\n");
    proof {
        reveal_strlit(": ");
        reveal_strlit("\\n");
    }
    assert(final(result)@ =~= old(result)@ + header_line(key@, value@));
}

/// Builds the canonical record text of a request from its headers, in the
/// order given, and its body, which is embedded as it is.
pub fn build_record(headers: &Vec<(String, String)>, body: &str) -> (r: String)
    ensures
        r@ == record_text(headers@, body@),
{
    let mut result = String::new();
    result.append("{\"headers\":\"");
    let ghost start = result@;
    let mut i: usize = 0;
    while i < headers.len()
        invariant
            i <= headers@.len(),
            start == "{\"headers\":\""@,
            result@ == start + header_lines(headers@.take(i as int)),
        decreases headers@.len() - i,
    {
        let pair = &headers[i];
        append_str(&mut result, pair.0.as_str(), pair.1.as_str());
        assert(headers@.take(i as int + 1).drop_last() =~= headers@.take(i as int));
        i = i + 1;
    }
    assert(headers@.take(i as int) =~= headers@);
    result.append("\",\"body\":");
    result.append(body);
    result.append("}");
    assert(result@ =~= record_text(headers@, body@));
    result
}

} // verus!
