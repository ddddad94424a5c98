//! Small verified text-building utilities: appending characters and decimal
//! numbers to a `String`, JSON string escaping, and string comparison.

use vstd::prelude::*;

verus! {

/// Relies on String::push: appends exactly the one given character.
#[verifier::external_body]
pub(crate) fn push_char(out: &mut String, c: char)
    ensures
        final(out)@ == old(out)@.push(c),
{
    out.push(c)
}

/// The character for one decimal digit.
pub open spec fn digit_char(d: nat) -> char {
    if d == 0 {
        '0'
    } else if d == 1 {
        '1'
    } else if d == 2 {
        '2'
    } else if d == 3 {
        '3'
    } else if d == 4 {
        '4'
    } else if d == 5 {
        '5'
    } else if d == 6 {
        '6'
    } else if d == 7 {
        '7'
    } else if d == 8 {
        '8'
    } else {
        '9'
    }
}

/// The character for one hexadecimal digit, lower case.
pub open spec fn hex_char(d: nat) -> char {
    if d < 10 {
        digit_char(d)
    } else if d == 10 {
        'a'
    } else if d == 11 {
        'b'
    } else if d == 12 {
        'c'
    } else if d == 13 {
        'd'
    } else if d == 14 {
        'e'
    } else {
        'f'
    }
}

/// The decimal digits of `n`, most significant first, with no leading zero
/// except for `n == 0` itself.
pub open spec fn spec_nat_digits(n: nat) -> Seq<char>
    decreases n,
{
    if n < 10 {
        seq![digit_char(n)]
    } else {
        spec_nat_digits(n / 10).push(digit_char(n % 10))
    }
}

/// The decimal rendering of an unsigned 64-bit integer.
pub open spec fn spec_u64_str(n: u64) -> Seq<char> {
    spec_nat_digits(n as nat)
}

/// The decimal rendering of a signed 64-bit integer, with a leading minus
/// sign when negative.
pub open spec fn spec_i64_str(i: i64) -> Seq<char> {
    if i >= 0 {
        spec_nat_digits(i as nat)
    } else {
        seq!['-'] + spec_nat_digits((-(i as int)) as nat)
    }
}

fn digit_char_exec(d: u64) -> (c: char)
    requires
        d < 10,
    ensures
        c == digit_char(d as nat),
{
    if d == 0 {
        '0'
    } else if d == 1 {
        '1'
    } else if d == 2 {
        '2'
    } else if d == 3 {
        '3'
    } else if d == 4 {
        '4'
    } else if d == 5 {
        '5'
    } else if d == 6 {
        '6'
    } else if d == 7 {
        '7'
    } else if d == 8 {
        '8'
    } else {
        '9'
    }
}

/// Appends the decimal digits of `n` to `out`.
pub fn append_u64(out: &mut String, n: u64)
    ensures
        final(out)@ == old(out)@ + spec_u64_str(n),
    decreases n,
{
    if n < 10 {
        push_char(out, digit_char_exec(n));
        proof {
            assert(out@ =~= old(out)@ + spec_u64_str(n));
        }
    } else {
        append_u64(out, n / 10);
        push_char(out, digit_char_exec(n % 10));
        proof {
            assert(out@ =~= old(out)@ + spec_u64_str(n));
        }
    }
}

/// Appends the decimal rendering of `i` to `out`, minus sign included when
/// `i` is negative.
pub fn append_i64(out: &mut String, i: i64)
    ensures
        final(out)@ == old(out)@ + spec_i64_str(i),
{
    if i >= 0 {
        append_u64(out, i as u64);
    } else {
        push_char(out, '-');
        let mag: u64 = ((-(i + 1)) as u64) + 1;
        assert(mag as nat == (-(i as int)) as nat);
        append_u64(out, mag);
        proof {
            assert(out@ =~= old(out)@ + spec_i64_str(i));
        }
    }
}

/// How one character appears inside a JSON string literal: quote, backslash
/// and control characters are escaped, every other character stands as it is.
pub open spec fn escape_char(c: char) -> Seq<char> {
    if c == '"' {
        seq!['\\', '"']
    } else if c == '\\' {
        seq!['\\', '\\']
    } else if c == '\u{08}' {
        seq!['\\', 'b']
    } else if c == '\u{09}' {
        seq!['\\', 't']
    } else if c == '\u{0A}' {
        seq!['\\', 'n']
    } else if c == '\u{0C}' {
        seq!['\\', 'f']
    } else if c == '\u{0D}' {
        seq!['\\', 'r']
    } else if (c as u32) < 0x20 {
        seq!['\\', 'u', '0', '0', hex_char((c as u32 / 16) as nat), hex_char((c as u32 % 16) as nat)]
    } else {
        seq![c]
    }
}

/// The body of a JSON string literal holding exactly the characters of `s`.
pub open spec fn spec_escape(s: Seq<char>) -> Seq<char>
    decreases s.len(),
{
    if s.len() == 0 {
        Seq::empty()
    } else {
        spec_escape(s.drop_last()) + escape_char(s.last())
    }
}

fn hex_char_exec(d: u32) -> (c: char)
    requires
        d < 16,
    ensures
        c == hex_char(d as nat),
{
    if d < 10 {
        digit_char_exec(d as u64)
    } else if d == 10 {
        'a'
    } else if d == 11 {
        'b'
    } else if d == 12 {
        'c'
    } else if d == 13 {
        'd'
    } else if d == 14 {
        'e'
    } else {
        'f'
    }
}

fn append_escape_char(out: &mut String, c: char)
    ensures
        final(out)@ == old(out)@ + escape_char(c),
{
    if c == '"' {
        push_char(out, '\\');
        push_char(out, '"');
    } else if c == '\\' {
        push_char(out, '\\');
        push_char(out, '\\');
    } else if c == '\u{08}' {
        push_char(out, '\\');
        push_char(out, 'b');
    } else if c == '\u{09}' {
        push_char(out, '\\');
        push_char(out, 't');
    } else if c == '\u{0A}' {
        push_char(out, '\\');
        push_char(out, 'n');
    } else if c == '\u{0C}' {
        push_char(out, '\\');
        push_char(out, 'f');
    } else if c == '\u{0D}' {
        push_char(out, '\\');
        push_char(out, 'r');
    } else if (c as u32) < 0x20 {
        push_char(out, '\\');
        push_char(out, 'u');
        push_char(out, '0');
        push_char(out, '0');
        push_char(out, hex_char_exec(c as u32 / 16));
        push_char(out, hex_char_exec(c as u32 % 16));
    } else {
        push_char(out, c);
    }
    proof {
        assert(out@ =~= old(out)@ + escape_char(c));
    }
}

/// Appends the characters of `s`, escaped for use inside a JSON string
/// literal, to `out`.
pub fn append_escaped(out: &mut String, s: &str)
    ensures
        final(out)@ == old(out)@ + spec_escape(s@),
{
    let len = s.unicode_len();
    let mut i: usize = 0;
    while i < len
        invariant
            i <= len,
            len == s@.len(),
            out@ == old(out)@ + spec_escape(s@.take(i as int)),
        decreases len - i,
    {
        let c = s.get_char(i);
        append_escape_char(out, c);
        proof {
            assert(s@.take(i + 1 as int).drop_last() =~= s@.take(i as int));
            assert(s@.take(i + 1 as int).last() == c);
        }
        i = i + 1;
    }
    proof {
        assert(s@.take(len as int) =~= s@);
    }
}

/// Whether `p` is a character-for-character prefix of `s`.
pub fn str_starts_with(s: &str, p: &str) -> (r: bool)
    ensures
        r == p@.is_prefix_of(s@),
{
    let plen = p.unicode_len();
    let slen = s.unicode_len();
    if plen > slen {
        return false;
    }
    let mut i: usize = 0;
    while i < plen
        invariant
            i <= plen,
            plen == p@.len(),
            slen == s@.len(),
            plen <= slen,
            forall|j: int| 0 <= j < i ==> p@[j] == s@[j],
        decreases plen - i,
    {
        if p.get_char(i) != s.get_char(i) {
            proof {
                assert(s@.subrange(0, plen as int)[i as int] == s@[i as int]);
            }
            return false;
        }
        i = i + 1;
    }
    proof {
        assert(p@ =~= s@.subrange(0, plen as int));
    }
    true
}

/// Character-for-character equality of two string slices.
pub fn str_eq(a: &str, b: &str) -> (r: bool)
    ensures
        r == (a@ == b@),
{
    let alen = a.unicode_len();
    let blen = b.unicode_len();
    if alen != blen {
        return false;
    }
    let mut i: usize = 0;
    while i < alen
        invariant
            i <= alen,
            alen == a@.len(),
            alen == b@.len(),
            forall|j: int| 0 <= j < i ==> a@[j] == b@[j],
        decreases alen - i,
    {
        if a.get_char(i) != b.get_char(i) {
            return false;
        }
        i = i + 1;
    }
    proof {
        assert(a@ =~= b@);
    }
    true
}


/// Escaping one character yields at least one character, beginning with a
/// backslash exactly for the characters that need escaping.
proof fn lemma_escape_char_shape(c: char)
    ensures
        1 <= escape_char(c).len(),
        (escape_char(c)[0] == '\\') == (c == '"' || c == '\\' || (c as u32) < 0x20),
        (c != '"' && c != '\\' && (c as u32) >= 0x20) ==> escape_char(c) == seq![c],
{
}

/// The escaped text read from the front: the first character's escape, then
/// the escape of the rest.
proof fn lemma_escape_unfold_front(s: Seq<char>)
    requires
        s.len() > 0,
    ensures
        spec_escape(s) == escape_char(s[0]) + spec_escape(s.drop_first()),
    decreases s.len(),
{
    if s.len() == 1 {
        assert(s.drop_last() =~= Seq::<char>::empty());
        assert(s.drop_first() =~= Seq::<char>::empty());
        assert(spec_escape(s) =~= escape_char(s[0]) + spec_escape(s.drop_first()));
    } else {
        lemma_escape_unfold_front(s.drop_last());
        assert(s.drop_last()[0] == s[0]);
        assert(s.drop_last().drop_first() =~= s.drop_first().drop_last());
        assert(s.drop_first().last() == s.last());
        assert(spec_escape(s.drop_first()) == spec_escape(s.drop_first().drop_last())
            + escape_char(s.drop_first().last()));
        assert(spec_escape(s) =~= escape_char(s[0]) + spec_escape(s.drop_first()));
    }
}

/// Two equal hexadecimal digit characters come from the same digit.
proof fn lemma_hex_char_injective(x: nat, y: nat)
    requires
        x < 16,
        y < 16,
        hex_char(x) == hex_char(y),
    ensures
        x == y,
{
}

/// The escaped forms make a prefix code: where two escaped texts agree, the
/// first characters agree, and so do the remainders.
proof fn lemma_escape_char_prefix_code(a: char, b: char, ta: Seq<char>, tb: Seq<char>)
    requires
        escape_char(a) + ta == escape_char(b) + tb,
    ensures
        a == b,
        ta == tb,
{
    let u = escape_char(a) + ta;
    lemma_escape_char_shape(a);
    lemma_escape_char_shape(b);
    assert(u[0] == escape_char(a)[0]);
    assert(u[0] == escape_char(b)[0]);
    let ea = a == '"' || a == '\\' || (a as u32) < 0x20;
    let eb = b == '"' || b == '\\' || (b as u32) < 0x20;
    if !ea && !eb {
        assert(u[0] == a && u[0] == b);
    } else if ea && eb {
        assert(escape_char(a).len() >= 2 && escape_char(b).len() >= 2);
        assert(u[1] == escape_char(a)[1]);
        assert(u[1] == escape_char(b)[1]);
        let sa = escape_char(a)[1];
        if sa == 'u' {
            assert(escape_char(a).len() == 6 && escape_char(b).len() == 6);
            assert(u[4] == hex_char((a as u32 / 16) as nat));
            assert(u[4] == hex_char((b as u32 / 16) as nat));
            assert(u[5] == hex_char((a as u32 % 16) as nat));
            assert(u[5] == hex_char((b as u32 % 16) as nat));
            lemma_hex_char_injective((a as u32 / 16) as nat, (b as u32 / 16) as nat);
            lemma_hex_char_injective((a as u32 % 16) as nat, (b as u32 % 16) as nat);
            assert(a as u32 == b as u32);
        }
    } else {
        assert(false);
    }
    assert(escape_char(a) == escape_char(b));
    assert(ta =~= u.skip(escape_char(a).len() as int));
    assert(tb =~= u.skip(escape_char(b).len() as int));
}

/// Law: JSON string escaping is lossless: two texts with the same escaped
/// form are the same text, so parsing a rendered record back recovers every
/// name and string value character for character.
pub proof fn lemma_escape_injective(s1: Seq<char>, s2: Seq<char>)
    requires
        spec_escape(s1) == spec_escape(s2),
    ensures
        s1 == s2,
    decreases s1.len(),
{
    if s1.len() == 0 {
        if s2.len() > 0 {
            lemma_escape_unfold_front(s2);
            lemma_escape_char_shape(s2[0]);
            assert(spec_escape(s2).len() >= 1);
            assert(false);
        }
        assert(s1 =~= s2);
    } else if s2.len() == 0 {
        lemma_escape_unfold_front(s1);
        lemma_escape_char_shape(s1[0]);
        assert(spec_escape(s1).len() >= 1);
        assert(false);
    } else {
        lemma_escape_unfold_front(s1);
        lemma_escape_unfold_front(s2);
        lemma_escape_char_prefix_code(
            s1[0],
            s2[0],
            spec_escape(s1.drop_first()),
            spec_escape(s2.drop_first()),
        );
        lemma_escape_injective(s1.drop_first(), s2.drop_first());
        assert(s1.len() == s2.len());
        assert forall|i: int| 0 <= i < s1.len() implies s1[i] == s2[i] by {
            if i > 0 {
                assert(s1.drop_first()[i - 1] == s1[i]);
                assert(s2.drop_first()[i - 1] == s2[i]);
            }
        }
        assert(s1 =~= s2);
    }
}


/// Two equal decimal digit characters come from the same digit.
proof fn lemma_digit_char_injective(x: nat, y: nat)
    requires
        x < 10,
        y < 10,
        digit_char(x) == digit_char(y),
    ensures
        x == y,
{
}

/// A decimal rendering has one digit below ten, more from ten upwards.
proof fn lemma_nat_digits_len(n: nat)
    ensures
        spec_nat_digits(n).len() >= 1,
        n >= 10 ==> spec_nat_digits(n).len() >= 2,
    decreases n,
{
    if n >= 10 {
        lemma_nat_digits_len(n / 10);
    }
}

/// Law: the decimal rendering is lossless: two numbers with the same digits
/// are the same number, so an integer emitted in a record parses back to
/// exactly the recorded value.
pub proof fn lemma_nat_digits_injective(a: nat, b: nat)
    requires
        spec_nat_digits(a) == spec_nat_digits(b),
    ensures
        a == b,
    decreases a,
{
    lemma_nat_digits_len(a);
    lemma_nat_digits_len(b);
    if a < 10 && b < 10 {
        assert(spec_nat_digits(a)[0] == digit_char(a));
        assert(spec_nat_digits(b)[0] == digit_char(b));
        lemma_digit_char_injective(a, b);
    } else if a < 10 {
        assert(spec_nat_digits(a).len() == 1);
        assert(false);
    } else if b < 10 {
        assert(spec_nat_digits(b).len() == 1);
        assert(false);
    } else {
        assert(spec_nat_digits(a).last() == digit_char(a % 10));
        assert(spec_nat_digits(b).last() == digit_char(b % 10));
        lemma_digit_char_injective(a % 10, b % 10);
        assert(spec_nat_digits(a).drop_last() =~= spec_nat_digits(a / 10));
        assert(spec_nat_digits(b).drop_last() =~= spec_nat_digits(b / 10));
        lemma_nat_digits_injective(a / 10, b / 10);
        assert(a == 10 * (a / 10) + a % 10);
        assert(b == 10 * (b / 10) + b % 10);
    }
}

} // verus!
