use vstd::prelude::*;
use crate::text::{push_char, push_four_digits, push_two_digits, four_digits, two_digits};

verus! {

/// A local wall-clock reading, as calendar and clock fields.
///
/// The reading is taken in the host's local time zone and is not normalised
/// to UTC: partitions follow local time.
#[derive(Clone, Copy, Debug, PartialEq, Eq)]
pub struct LocalTime {
    pub year: i32,
    pub month: u32,
    pub day: u32,
    pub hour: u32,
    pub minute: u32,
    pub second: u32,
}

impl LocalTime {
    /// The fields lie in the ranges of a calendar date and a clock time.
    pub open spec fn wf(&self) -> bool {
        &&& 1 <= self.month <= 12
        &&& 1 <= self.day <= 31
        &&& self.hour < 24
        &&& self.minute < 60
        &&& self.second < 60
    }

    /// The reading can be written in the fixed-width form: a valid reading
    /// whose year has at most four digits.
    pub open spec fn renderable(&self) -> bool {
        &&& self.wf()
        &&& 0 <= self.year <= 9999
    }

    /// The calendar day of the reading, as a tuple in descending significance.
    pub open spec fn day_of(&self) -> (int, int, int) {
        (self.year as int, self.month as int, self.day as int)
    }

    /// The calendar minute of the reading, as a tuple in descending significance.
    pub open spec fn minute_of(&self) -> (int, int, int, int, int) {
        (self.year as int, self.month as int, self.day as int, self.hour as int, self.minute as int)
    }
}

/// `YYYY-MM-DD`: the day key of a reading.
pub open spec fn day_text(t: LocalTime) -> Seq<char> {
    four_digits(t.year as nat) + seq!['-'] + two_digits(t.month as nat) + seq!['-']
        + two_digits(t.day as nat)
}

/// `YYYY-MM-DD_HH_MM`: the minute key of a reading.
pub open spec fn minute_text(t: LocalTime) -> Seq<char> {
    day_text(t) + seq!['_'] + two_digits(t.hour as nat) + seq!['_'] + two_digits(t.minute as nat)
}

/// Writes the day key `YYYY-MM-DD` of a reading; `None` when the reading has
/// no fixed-width form.
pub fn date(t: &LocalTime) -> (r: Option<String>)
    ensures
        r is Some <==> t.renderable(),
        r matches Some(s) ==> s@ == day_text(*t),
{
    if !(0 <= t.year && t.year <= 9999 && 1 <= t.month && t.month <= 12 && 1 <= t.day
        && t.day <= 31 && t.hour < 24 && t.minute < 60 && t.second < 60) {
        return None;
    }
    let mut s = String::new();
    push_four_digits(&mut s, t.year as u32);
    push_char(&mut s, '-');
    push_two_digits(&mut s, t.month);
    push_char(&mut s, '-');
    push_two_digits(&mut s, t.day);
    assert(s@ =~= day_text(*t));
    Some(s)
}

/// Writes the minute key `YYYY-MM-DD_HH_MM` of a reading; `None` when the
/// reading has no fixed-width form.
pub fn date_hour_min(t: &LocalTime) -> (r: Option<String>)
    ensures
        r is Some <==> t.renderable(),
        r matches Some(s) ==> s@ == minute_text(*t),
{
    match date(t) {
        None => None,
        Some(day) => {
            let mut s = day;
            push_char(&mut s, '_');
            push_two_digits(&mut s, t.hour);
            push_char(&mut s, '_');
            push_two_digits(&mut s, t.minute);
            assert(s@ =~= minute_text(*t));
            Some(s)
        },
    }
}

/// `a` comes strictly before `b` in dictionary order: they agree up to some
/// position, where `a` holds the smaller character.
pub open spec fn text_before(a: Seq<char>, b: Seq<char>) -> bool {
    exists|i: int|
        0 <= i < a.len() && i < b.len() && a.take(i) == b.take(i) && (a[i] as u32) < (b[i] as u32)
}

/// The calendar day `a` comes strictly before the calendar day `b`.
pub open spec fn day_before(a: (int, int, int), b: (int, int, int)) -> bool {
    ||| a.0 < b.0
    ||| a.0 == b.0 && a.1 < b.1
    ||| a.0 == b.0 && a.1 == b.1 && a.2 < b.2
}

/// The calendar minute `a` comes strictly before the calendar minute `b`.
pub open spec fn minute_before(a: (int, int, int, int, int), b: (int, int, int, int, int)) -> bool {
    ||| a.0 < b.0
    ||| a.0 == b.0 && a.1 < b.1
    ||| a.0 == b.0 && a.1 == b.1 && a.2 < b.2
    ||| a.0 == b.0 && a.1 == b.1 && a.2 == b.2 && a.3 < b.3
    ||| a.0 == b.0 && a.1 == b.1 && a.2 == b.2 && a.3 == b.3 && a.4 < b.4
}

proof fn lemma_before_left(a1: Seq<char>, a2: Seq<char>, b1: Seq<char>, b2: Seq<char>)
    requires
        a1.len() == b1.len(),
        text_before(a1, b1),
    ensures
        text_before(a1 + a2, b1 + b2),
{
    let i = choose|i: int|
        0 <= i < a1.len() && i < b1.len() && a1.take(i) == b1.take(i) && (a1[i] as u32) < (
        b1[i] as u32);
    assert((a1 + a2).take(i) =~= a1.take(i));
    assert((b1 + b2).take(i) =~= b1.take(i));
    assert((a1 + a2)[i] == a1[i]);
    assert((b1 + b2)[i] == b1[i]);
}

proof fn lemma_before_right(a1: Seq<char>, a2: Seq<char>, b2: Seq<char>)
    requires
        text_before(a2, b2),
    ensures
        text_before(a1 + a2, a1 + b2),
{
    let i = choose|i: int|
        0 <= i < a2.len() && i < b2.len() && a2.take(i) == b2.take(i) && (a2[i] as u32) < (
        b2[i] as u32);
    let j = a1.len() + i;
    assert((a1 + a2).take(j) =~= a1 + a2.take(i));
    assert((a1 + b2).take(j) =~= a1 + b2.take(i));
    assert((a1 + a2)[j] == a2[i]);
    assert((a1 + b2)[j] == b2[i]);
}

proof fn lemma_digit_before(x: nat, y: nat)
    requires
        x % 10 < y % 10,
    ensures
        (crate::text::digit_char(x) as u32) < (crate::text::digit_char(y) as u32),
{
}

proof fn lemma_two_digits_before(a: nat, b: nat)
    requires
        a < b < 100,
    ensures
        text_before(two_digits(a), two_digits(b)),
{
    let sa = two_digits(a);
    let sb = two_digits(b);
    assert(a / 10 < 10 && b / 10 < 10) by (nonlinear_arith)
        requires a < b < 100;
    if a / 10 < b / 10 {
        lemma_digit_before(a / 10, b / 10);
        assert(sa.take(0) =~= sb.take(0));
    } else {
        assert(a / 10 == b / 10 && a % 10 < b % 10) by (nonlinear_arith)
            requires a < b, a / 10 >= b / 10;
        lemma_digit_before(a, b);
        assert(sa.take(1) =~= sb.take(1));
    }
}

proof fn lemma_four_digits_split(n: nat)
    requires
        n < 10000,
    ensures
        four_digits(n) == two_digits(n / 100) + two_digits(n % 100),
{
    assert(n / 1000 == (n / 100) / 10) by (nonlinear_arith);
    assert((n / 10) % 10 == ((n % 100) / 10) % 10) by (nonlinear_arith);
    assert(n % 10 == (n % 100) % 10) by (nonlinear_arith);
    assert(four_digits(n) =~= two_digits(n / 100) + two_digits(n % 100));
}

proof fn lemma_four_digits_before(a: nat, b: nat)
    requires
        a < b < 10000,
    ensures
        text_before(four_digits(a), four_digits(b)),
{
    lemma_four_digits_split(a);
    lemma_four_digits_split(b);
    assert(a / 100 < 100 && b / 100 < 100) by (nonlinear_arith)
        requires a < b < 10000;
    if a / 100 < b / 100 {
        lemma_two_digits_before(a / 100, b / 100);
        lemma_before_left(two_digits(a / 100), two_digits(a % 100), two_digits(b / 100), two_digits(b % 100));
    } else {
        assert(a / 100 == b / 100 && a % 100 < b % 100) by (nonlinear_arith)
            requires a < b, a / 100 >= b / 100;
        lemma_two_digits_before(a % 100, b % 100);
        lemma_before_right(two_digits(a / 100), two_digits(a % 100), two_digits(b % 100));
    }
}

/// Two readings within one calendar minute have the same minute key, and
/// hence the same day key.
pub proof fn lemma_same_minute_same_key(t1: LocalTime, t2: LocalTime)
    requires
        t1.renderable(),
        t2.renderable(),
        t1.minute_of() == t2.minute_of(),
    ensures
        minute_text(t1) == minute_text(t2),
        day_text(t1) == day_text(t2),
{
}

/// The minute key of a reading starts with its day key.
pub proof fn lemma_minute_key_extends_day_key(t: LocalTime)
    requires
        t.renderable(),
    ensures
        day_text(t).len() == 10,
        minute_text(t).len() == 16,
        minute_text(t).take(10) == day_text(t),
{
    assert(minute_text(t).take(10) =~= day_text(t));
}

/// The five fixed-width fields of a reading's minute key.
spec fn key_parts(t: LocalTime) -> (Seq<char>, Seq<char>, Seq<char>, Seq<char>, Seq<char>) {
    (four_digits(t.year as nat), two_digits(t.month as nat), two_digits(t.day as nat),
        two_digits(t.hour as nat), two_digits(t.minute as nat))
}

proof fn lemma_key_year_before(t1: LocalTime, t2: LocalTime)
    requires
        t1.renderable(),
        t2.renderable(),
        t1.year < t2.year,
    ensures
        text_before(minute_text(t1), minute_text(t2)),
{
    let (y1, mo1, d1, h1, mi1) = key_parts(t1);
    let (y2, mo2, d2, h2, mi2) = key_parts(t2);
    let rest1 = seq!['-'] + mo1 + seq!['-'] + d1 + seq!['_'] + h1 + seq!['_'] + mi1;
    let rest2 = seq!['-'] + mo2 + seq!['-'] + d2 + seq!['_'] + h2 + seq!['_'] + mi2;
    lemma_four_digits_before(t1.year as nat, t2.year as nat);
    lemma_before_left(y1, rest1, y2, rest2);
    assert(minute_text(t1) =~= y1 + rest1);
    assert(minute_text(t2) =~= y2 + rest2);
}

proof fn lemma_key_month_before(t1: LocalTime, t2: LocalTime)
    requires
        t1.renderable(),
        t2.renderable(),
        t1.year == t2.year,
        t1.month < t2.month,
    ensures
        text_before(minute_text(t1), minute_text(t2)),
{
    let (y1, mo1, d1, h1, mi1) = key_parts(t1);
    let (y2, mo2, d2, h2, mi2) = key_parts(t2);
    let head = y1 + seq!['-'];
    let rest1 = seq!['-'] + d1 + seq!['_'] + h1 + seq!['_'] + mi1;
    let rest2 = seq!['-'] + d2 + seq!['_'] + h2 + seq!['_'] + mi2;
    lemma_two_digits_before(t1.month as nat, t2.month as nat);
    lemma_before_left(mo1, rest1, mo2, rest2);
    lemma_before_right(head, mo1 + rest1, mo2 + rest2);
    assert(minute_text(t1) =~= head + (mo1 + rest1));
    assert(minute_text(t2) =~= head + (mo2 + rest2));
}

proof fn lemma_key_day_before(t1: LocalTime, t2: LocalTime)
    requires
        t1.renderable(),
        t2.renderable(),
        t1.year == t2.year,
        t1.month == t2.month,
        t1.day < t2.day,
    ensures
        text_before(minute_text(t1), minute_text(t2)),
{
    let (y1, mo1, d1, h1, mi1) = key_parts(t1);
    let (y2, mo2, d2, h2, mi2) = key_parts(t2);
    let head = y1 + seq!['-'] + mo1 + seq!['-'];
    let rest1 = seq!['_'] + h1 + seq!['_'] + mi1;
    let rest2 = seq!['_'] + h2 + seq!['_'] + mi2;
    lemma_two_digits_before(t1.day as nat, t2.day as nat);
    lemma_before_left(d1, rest1, d2, rest2);
    lemma_before_right(head, d1 + rest1, d2 + rest2);
    assert(minute_text(t1) =~= head + (d1 + rest1));
    assert(minute_text(t2) =~= head + (d2 + rest2));
}

proof fn lemma_key_hour_before(t1: LocalTime, t2: LocalTime)
    requires
        t1.renderable(),
        t2.renderable(),
        t1.year == t2.year,
        t1.month == t2.month,
        t1.day == t2.day,
        t1.hour < t2.hour,
    ensures
        text_before(minute_text(t1), minute_text(t2)),
{
    let (y1, mo1, d1, h1, mi1) = key_parts(t1);
    let (y2, mo2, d2, h2, mi2) = key_parts(t2);
    let head = y1 + seq!['-'] + mo1 + seq!['-'] + d1 + seq!['_'];
    let rest1 = seq!['_'] + mi1;
    let rest2 = seq!['_'] + mi2;
    lemma_two_digits_before(t1.hour as nat, t2.hour as nat);
    lemma_before_left(h1, rest1, h2, rest2);
    lemma_before_right(head, h1 + rest1, h2 + rest2);
    assert(minute_text(t1) =~= head + (h1 + rest1));
    assert(minute_text(t2) =~= head + (h2 + rest2));
}

proof fn lemma_key_minute_before(t1: LocalTime, t2: LocalTime)
    requires
        t1.renderable(),
        t2.renderable(),
        t1.year == t2.year,
        t1.month == t2.month,
        t1.day == t2.day,
        t1.hour == t2.hour,
        t1.minute < t2.minute,
    ensures
        text_before(minute_text(t1), minute_text(t2)),
{
    let (y1, mo1, d1, h1, mi1) = key_parts(t1);
    let (y2, mo2, d2, h2, mi2) = key_parts(t2);
    let head = y1 + seq!['-'] + mo1 + seq!['-'] + d1 + seq!['_'] + h1 + seq!['_'];
    lemma_two_digits_before(t1.minute as nat, t2.minute as nat);
    lemma_before_right(head, mi1, mi2);
    assert(minute_text(t1) =~= head + mi1);
    assert(minute_text(t2) =~= head + mi2);
}

/// Text that comes strictly before another differs from it.
pub proof fn lemma_before_differs(a: Seq<char>, b: Seq<char>)
    requires
        text_before(a, b),
    ensures
        a != b,
{
    let i = choose|i: int|
        0 <= i < a.len() && i < b.len() && a.take(i) == b.take(i) && (a[i] as u32) < (b[i] as u32);
    assert(a[i] != b[i]);
}

/// A reading in a later calendar minute has a minute key that comes later in
/// dictionary order, so keys of different minutes differ and sort by time.
pub proof fn lemma_later_minute_later_key(t1: LocalTime, t2: LocalTime)
    requires
        t1.renderable(),
        t2.renderable(),
        minute_before(t1.minute_of(), t2.minute_of()),
    ensures
        text_before(minute_text(t1), minute_text(t2)),
        minute_text(t1) != minute_text(t2),
{
    if t1.year < t2.year {
        lemma_key_year_before(t1, t2);
    } else if t1.year == t2.year && t1.month < t2.month {
        lemma_key_month_before(t1, t2);
    } else if t1.year == t2.year && t1.month == t2.month && t1.day < t2.day {
        lemma_key_day_before(t1, t2);
    } else if t1.year == t2.year && t1.month == t2.month && t1.day == t2.day && t1.hour < t2.hour {
        lemma_key_hour_before(t1, t2);
    } else {
        lemma_key_minute_before(t1, t2);
    }
    lemma_before_differs(minute_text(t1), minute_text(t2));
}

proof fn lemma_day_key_year_before(t1: LocalTime, t2: LocalTime)
    requires
        t1.renderable(),
        t2.renderable(),
        t1.year < t2.year,
    ensures
        text_before(day_text(t1), day_text(t2)),
{
    let (y1, mo1, d1, h1, mi1) = key_parts(t1);
    let (y2, mo2, d2, h2, mi2) = key_parts(t2);
    let rest1 = seq!['-'] + mo1 + seq!['-'] + d1;
    let rest2 = seq!['-'] + mo2 + seq!['-'] + d2;
    lemma_four_digits_before(t1.year as nat, t2.year as nat);
    lemma_before_left(y1, rest1, y2, rest2);
    assert(day_text(t1) =~= y1 + rest1);
    assert(day_text(t2) =~= y2 + rest2);
}

proof fn lemma_day_key_month_before(t1: LocalTime, t2: LocalTime)
    requires
        t1.renderable(),
        t2.renderable(),
        t1.year == t2.year,
        t1.month < t2.month,
    ensures
        text_before(day_text(t1), day_text(t2)),
{
    let (y1, mo1, d1, h1, mi1) = key_parts(t1);
    let (y2, mo2, d2, h2, mi2) = key_parts(t2);
    let head = y1 + seq!['-'];
    let rest1 = seq!['-'] + d1;
    let rest2 = seq!['-'] + d2;
    lemma_two_digits_before(t1.month as nat, t2.month as nat);
    lemma_before_left(mo1, rest1, mo2, rest2);
    lemma_before_right(head, mo1 + rest1, mo2 + rest2);
    assert(day_text(t1) =~= head + (mo1 + rest1));
    assert(day_text(t2) =~= head + (mo2 + rest2));
}

proof fn lemma_day_key_day_before(t1: LocalTime, t2: LocalTime)
    requires
        t1.renderable(),
        t2.renderable(),
        t1.year == t2.year,
        t1.month == t2.month,
        t1.day < t2.day,
    ensures
        text_before(day_text(t1), day_text(t2)),
{
    let (y1, mo1, d1, h1, mi1) = key_parts(t1);
    let (y2, mo2, d2, h2, mi2) = key_parts(t2);
    let head = y1 + seq!['-'] + mo1 + seq!['-'];
    lemma_two_digits_before(t1.day as nat, t2.day as nat);
    lemma_before_right(head, d1, d2);
    assert(day_text(t1) =~= head + d1);
    assert(day_text(t2) =~= head + d2);
}

/// A reading on a later calendar day has a day key that comes later in
/// dictionary order, so day keys of different days differ and sort by time.
pub proof fn lemma_later_day_later_key(t1: LocalTime, t2: LocalTime)
    requires
        t1.renderable(),
        t2.renderable(),
        day_before(t1.day_of(), t2.day_of()),
    ensures
        text_before(day_text(t1), day_text(t2)),
        day_text(t1) != day_text(t2),
{
    if t1.year < t2.year {
        lemma_day_key_year_before(t1, t2);
    } else if t1.year == t2.year && t1.month < t2.month {
        lemma_day_key_month_before(t1, t2);
    } else {
        lemma_day_key_day_before(t1, t2);
    }
    lemma_before_differs(day_text(t1), day_text(t2));
}

/// Two readings have the same day key exactly when they fall on the same
/// calendar day.
pub proof fn lemma_same_day_key_iff_same_day(t1: LocalTime, t2: LocalTime)
    requires
        t1.renderable(),
        t2.renderable(),
    ensures
        day_text(t1) == day_text(t2) <==> t1.day_of() == t2.day_of(),
{
    if t1.day_of() != t2.day_of() {
        if day_before(t1.day_of(), t2.day_of()) {
            lemma_later_day_later_key(t1, t2);
        } else {
            lemma_later_day_later_key(t2, t1);
        }
    }
}

} // verus!
