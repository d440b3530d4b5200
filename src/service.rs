use vstd::prelude::*;
use vstd::string::StringExecFns;
use crate::text::{decimal, push_char, push_decimal};

verus! {

/// The reply of the echo endpoint: the body's bytes, unchanged.
pub fn echo(body: Vec<u8>) -> (r: Vec<u8>)
    ensures
        r@ == body@,
{
    body
}

/// The fixed greeting of the health-check endpoint.
pub fn hi() -> (r: String)
    ensures
        r@ == "hi rust"@,
{
    let mut s = String::new();
    s.append("hi rust");
    s
}

/// The sum of two numbers.
pub fn add(a: i32, b: i32) -> (r: i32)
    requires
        i32::MIN <= a + b <= i32::MAX,
    ensures
        r == a + b,
{
    a + b
}

/// The address to bind: `host:port`.
pub fn concat_host_port(host: &str, int_port: usize) -> (r: String)
    ensures
        r@ == host@ + seq![':'] + decimal(int_port as nat),
{
    let mut s = String::new();
    s.append(host);
    push_char(&mut s, ':');
    push_decimal(&mut s, int_port);
    assert(s@ =~= host@ + seq![':'] + decimal(int_port as nat));
    s
}

} // verus!
