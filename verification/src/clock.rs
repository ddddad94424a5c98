//! The record timestamp: the current UTC calendar time, read once per record
//! from the wall clock, and rendered as an RFC 3339 date-time with zero UTC
//! offset.

use vstd::prelude::*;

use crate::text::{digit_char, push_char};

verus! {

/// A UTC calendar time, split into its components as plain values.
pub struct UtcTimestamp {
    pub year: i32,
    pub month: u8,
    pub day: u8,
    pub hour: u8,
    pub minute: u8,
    pub second: u8,
    pub nanosecond: u32,
}

impl UtcTimestamp {
    /// Every component within its calendar range.
    pub open spec fn wf(&self) -> bool {
        &&& -9999 <= self.year <= 9999
        &&& 1 <= self.month <= 12
        &&& 1 <= self.day <= 31
        &&& self.hour < 24
        &&& self.minute < 60
        &&& self.second < 60
        &&& self.nanosecond < 1_000_000_000
    }
}

/// Relies on time::OffsetDateTime::now_utc and its component accessors
/// (year, month, day, hour, minute, second, nanosecond): the current UTC
/// calendar time, each component within its documented range (year within
/// plus or minus 9999, month 1 to 12, day 1 to 31, hour below 24, minute and
/// second below 60, nanosecond below one billion). Which time comes back
/// depends on the clock, so nothing more is promised.
#[verifier::external_body]
pub(crate) fn now_utc_parts() -> (t: UtcTimestamp)
    ensures
        t.wf(),
{
    let now = time::OffsetDateTime::now_utc();
    UtcTimestamp {
        year: now.year(),
        month: u8::from(now.month()),
        day: now.day(),
        hour: now.hour(),
        minute: now.minute(),
        second: now.second(),
        nanosecond: now.nanosecond(),
    }
}

/// The decimal digit of `v` at the power-of-ten place `p`.
#[verifier::opaque]
pub open spec fn dec_digit(v: int, p: int) -> char {
    digit_char(((v / p) % 10) as nat)
}

/// The date-and-time part of the rendering: four year digits, month, day,
/// hour, minute and second, with their separators.
pub open spec fn spec_rfc3339_head(t: UtcTimestamp) -> Seq<char> {
    let y = t.year as int;
    let mo = t.month as int;
    let d = t.day as int;
    let h = t.hour as int;
    let mi = t.minute as int;
    let se = t.second as int;
    seq![
        dec_digit(y, 1000),
        dec_digit(y, 100),
        dec_digit(y, 10),
        dec_digit(y, 1),
        '-',
        dec_digit(mo, 10),
        dec_digit(mo, 1),
        '-',
        dec_digit(d, 10),
        dec_digit(d, 1),
        'T',
        dec_digit(h, 10),
        dec_digit(h, 1),
        ':',
        dec_digit(mi, 10),
        dec_digit(mi, 1),
        ':',
        dec_digit(se, 10),
        dec_digit(se, 1),
    ]
}

/// The fractional-second part of the rendering: a point and nine digits.
pub open spec fn spec_rfc3339_frac(ns: int) -> Seq<char> {
    seq![
        '.',
        dec_digit(ns, 100_000_000),
        dec_digit(ns, 10_000_000),
        dec_digit(ns, 1_000_000),
        dec_digit(ns, 100_000),
        dec_digit(ns, 10_000),
        dec_digit(ns, 1_000),
        dec_digit(ns, 100),
        dec_digit(ns, 10),
        dec_digit(ns, 1),
    ]
}

/// The RFC 3339 rendering of `t` with zero UTC offset: date, 'T', time, then
/// nine fractional digits when the nanosecond part is not zero, then 'Z'.
pub open spec fn spec_rfc3339(t: UtcTimestamp) -> Seq<char> {
    spec_rfc3339_head(t) + (if t.nanosecond as int == 0 {
        seq!['Z']
    } else {
        spec_rfc3339_frac(t.nanosecond as int) + seq!['Z']
    })
}

/// Whether `c` is a decimal digit character.
pub open spec fn is_digit(c: char) -> bool {
    48 <= c as u32 <= 57
}

/// The numeric value of a digit character.
pub open spec fn digit_val(c: char) -> int {
    c as u32 - 48
}

/// Structural validity as an RFC 3339 date-time with zero UTC offset:
/// a four-digit year, two-digit month, day, hour, minute and second with the
/// separators `-`, `T` and `:`, each field within its calendar range, an
/// optional fraction of at least one digit, and the offset letter `Z`.
pub open spec fn is_rfc3339_utc(s: Seq<char>) -> bool {
    &&& s.len() >= 20
    &&& is_digit(s[0]) && is_digit(s[1]) && is_digit(s[2]) && is_digit(s[3])
    &&& s[4] == '-'
    &&& is_digit(s[5]) && is_digit(s[6])
    &&& s[7] == '-'
    &&& is_digit(s[8]) && is_digit(s[9])
    &&& s[10] == 'T'
    &&& is_digit(s[11]) && is_digit(s[12])
    &&& s[13] == ':'
    &&& is_digit(s[14]) && is_digit(s[15])
    &&& s[16] == ':'
    &&& is_digit(s[17]) && is_digit(s[18])
    &&& 1 <= 10 * digit_val(s[5]) + digit_val(s[6]) <= 12
    &&& 1 <= 10 * digit_val(s[8]) + digit_val(s[9]) <= 31
    &&& 10 * digit_val(s[11]) + digit_val(s[12]) <= 23
    &&& 10 * digit_val(s[14]) + digit_val(s[15]) <= 59
    &&& 10 * digit_val(s[17]) + digit_val(s[18]) <= 59
    &&& s[s.len() - 1] == 'Z'
    &&& (s.len() == 20 || (s.len() >= 22 && s[19] == '.' && (forall|i: int|
        20 <= i < s.len() - 1 ==> is_digit(#[trigger] s[i]))))
}

fn push_dec_digit(out: &mut String, v: u64, p: u64)
    requires
        p > 0,
    ensures
        final(out)@ == old(out)@.push(dec_digit(v as int, p as int)),
{
    proof {
        reveal(dec_digit);
    }
    let d = (v / p) % 10;
    let c = if d == 0 {
        '0'
    } else if d == 1 {
        '1'
    } else if d == 2 {
        '2'
    } else if d == 3 {
        '3'
    } else if d == 4 {
        '4'
    } else if d == 5 {
        '5'
    } else if d == 6 {
        '6'
    } else if d == 7 {
        '7'
    } else if d == 8 {
        '8'
    } else {
        '9'
    };
    push_char(out, c);
}

/// Renders `t` as an RFC 3339 date-time with zero UTC offset. Only years of
/// the common era up to four digits have such a rendering.
#[verifier::rlimit(100)]
fn append_rfc3339_head(out: &mut String, t: &UtcTimestamp)
    requires
        t.wf(),
        t.year >= 0,
    ensures
        final(out)@ == old(out)@ + spec_rfc3339_head(*t),
{
    let y = t.year as u64;
    let mo = t.month as u64;
    let d = t.day as u64;
    let h = t.hour as u64;
    let mi = t.minute as u64;
    let se = t.second as u64;
    push_dec_digit(out, y, 1000);
    push_dec_digit(out, y, 100);
    push_dec_digit(out, y, 10);
    push_dec_digit(out, y, 1);
    push_char(out, '-');
    push_dec_digit(out, mo, 10);
    push_dec_digit(out, mo, 1);
    push_char(out, '-');
    push_dec_digit(out, d, 10);
    push_dec_digit(out, d, 1);
    push_char(out, 'T');
    push_dec_digit(out, h, 10);
    push_dec_digit(out, h, 1);
    push_char(out, ':');
    push_dec_digit(out, mi, 10);
    push_dec_digit(out, mi, 1);
    push_char(out, ':');
    push_dec_digit(out, se, 10);
    push_dec_digit(out, se, 1);
    proof {
        assert(out@ =~= old(out)@ + spec_rfc3339_head(*t));
    }
}

#[verifier::rlimit(100)]
fn append_rfc3339_frac(out: &mut String, ns: u32)
    ensures
        final(out)@ == old(out)@ + spec_rfc3339_frac(ns as int),
{
    let n = ns as u64;
    push_char(out, '.');
    push_dec_digit(out, n, 100_000_000);
    push_dec_digit(out, n, 10_000_000);
    push_dec_digit(out, n, 1_000_000);
    push_dec_digit(out, n, 100_000);
    push_dec_digit(out, n, 10_000);
    push_dec_digit(out, n, 1_000);
    push_dec_digit(out, n, 100);
    push_dec_digit(out, n, 10);
    push_dec_digit(out, n, 1);
    proof {
        assert(out@ =~= old(out)@ + spec_rfc3339_frac(ns as int));
    }
}

/// Renders `t` as an RFC 3339 date-time with zero UTC offset. Only years of
/// the common era up to four digits have such a rendering.
pub fn format_rfc3339_utc(t: &UtcTimestamp) -> (r: String)
    requires
        t.wf(),
        t.year >= 0,
    ensures
        r@ == spec_rfc3339(*t),
{
    let mut out = String::new();
    append_rfc3339_head(&mut out, t);
    if t.nanosecond == 0 {
        push_char(&mut out, 'Z');
    } else {
        append_rfc3339_frac(&mut out, t.nanosecond);
        push_char(&mut out, 'Z');
    }
    proof {
        assert(out@ =~= spec_rfc3339(*t));
    }
    out
}

/// Law: the rendered timestamp of any valid common-era UTC calendar time is
/// a structurally valid RFC 3339 date-time with zero UTC offset.
pub proof fn lemma_rfc3339_valid(t: UtcTimestamp)
    requires
        t.wf(),
        t.year >= 0,
    ensures
        is_rfc3339_utc(spec_rfc3339(t)),
{
    reveal(dec_digit);
    let s = spec_rfc3339(t);
    let mo = t.month as int;
    let d = t.day as int;
    let h = t.hour as int;
    let mi = t.minute as int;
    let se = t.second as int;
    assert forall|n: nat| n < 10 implies is_digit(digit_char(n)) && digit_val(digit_char(n)) == n
        by {}
    assert(mo / 10 < 10 && (mo / 10) % 10 == mo / 10);
    assert(10 * (mo / 10) + mo % 10 == mo);
    assert(10 * (d / 10) + d % 10 == d && (d / 10) % 10 == d / 10);
    assert(10 * (h / 10) + h % 10 == h && (h / 10) % 10 == h / 10);
    assert(10 * (mi / 10) + mi % 10 == mi && (mi / 10) % 10 == mi / 10);
    assert(10 * (se / 10) + se % 10 == se && (se / 10) % 10 == se / 10);
    if t.nanosecond == 0 {
        assert(s.len() == 20);
    } else {
        assert(s.len() == 30);
        assert forall|i: int| 20 <= i < s.len() - 1 implies is_digit(#[trigger] s[i]) by {}
    }
}

} // verus!
