//! Small verified text builders: hexadecimal and decimal digits appended to a `String`.
use vstd::prelude::*;
use vstd::string::*;

verus! {

/// The upper-case hexadecimal digit for `d` (0..=15).
pub open spec fn hex_char(d: int) -> char {
    if d < 10 {
        (('0' as int) + d) as char
    } else {
        (('A' as int) + d - 10) as char
    }
}

/// The decimal digit for `d` (0..=9).
pub open spec fn dec_char(d: int) -> char {
    (('0' as int) + d) as char
}

/// `v` written as exactly two upper-case hexadecimal digits (`{:02X}` of a byte).
pub open spec fn hex2(v: u8) -> Seq<char> {
    seq![hex_char((v / 16) as int), hex_char((v % 16) as int)]
}

/// `n` written in decimal without leading zeros (`{}` of an unsigned integer).
pub open spec fn dec(n: nat) -> Seq<char>
    decreases n,
{
    if n < 10 {
        seq![dec_char(n as int)]
    } else {
        dec(n / 10).push(dec_char((n % 10) as int))
    }
}

/// A one-character string literal holding the hexadecimal digit `d`.
pub fn hex_digit_str(d: u8) -> (s: &'static str)
    requires
        d < 16,
    ensures
        s@ == seq![hex_char(d as int)],
{
    match d {
        0 => { proof { reveal_strlit("0"); } "0" },
        1 => { proof { reveal_strlit("1"); } "1" },
        2 => { proof { reveal_strlit("2"); } "2" },
        3 => { proof { reveal_strlit("3"); } "3" },
        4 => { proof { reveal_strlit("4"); } "4" },
        5 => { proof { reveal_strlit("5"); } "5" },
        6 => { proof { reveal_strlit("6"); } "6" },
        7 => { proof { reveal_strlit("7"); } "7" },
        8 => { proof { reveal_strlit("8"); } "8" },
        9 => { proof { reveal_strlit("9"); } "9" },
        10 => { proof { reveal_strlit("A"); } "A" },
        11 => { proof { reveal_strlit("B"); } "B" },
        12 => { proof { reveal_strlit("C"); } "C" },
        13 => { proof { reveal_strlit("D"); } "D" },
        14 => { proof { reveal_strlit("E"); } "E" },
        _ => { proof { reveal_strlit("F"); } "F" },
    }
}

/// Append the two-digit upper-case hexadecimal form of `v`.
pub fn push_hex2(s: &mut String, v: u8)
    ensures
        final(s)@ == old(s)@ + hex2(v),
{
    s.append(hex_digit_str(v / 16));
    s.append(hex_digit_str(v % 16));
}

/// Append the decimal form of `v`, without leading zeros.
pub fn push_dec(s: &mut String, v: u8)
    ensures
        final(s)@ == old(s)@ + dec(v as nat),
{
    let ghost s0 = s@;
    if v >= 100 {
        s.append(hex_digit_str(v / 100));
        s.append(hex_digit_str((v / 10) % 10));
        s.append(hex_digit_str(v % 10));
        proof {
            let n = v as nat;
            assert(dec(n / 100) == seq![dec_char((n / 100) as int)]);
            assert(n / 10 / 10 == n / 100);
            assert(dec(n / 10) == dec(n / 100).push(dec_char((n / 10 % 10) as int)));
            assert(dec(n) == dec(n / 10).push(dec_char((n % 10) as int)));
            assert(s@ =~= s0 + dec(n));
        }
    } else if v >= 10 {
        s.append(hex_digit_str(v / 10));
        s.append(hex_digit_str(v % 10));
        proof {
            let n = v as nat;
            assert(dec(n / 10) == seq![dec_char((n / 10) as int)]);
            assert(dec(n) == dec(n / 10).push(dec_char((n % 10) as int)));
            assert(s@ =~= s0 + dec(n));
        }
    } else {
        s.append(hex_digit_str(v));
        proof {
            assert(s@ =~= s0 + dec(v as nat));
        }
    }
}


/// Append the decimal form of `v`, without leading zeros.
pub fn push_dec_u64(s: &mut String, v: u64)
    ensures
        final(s)@ == old(s)@ + dec(v as nat),
    decreases v,
{
    let ghost s0 = s@;
    if v >= 10 {
        push_dec_u64(s, v / 10);
    }
    s.append(hex_digit_str((v % 10) as u8));
    proof {
        let n = v as nat;
        if n >= 10 {
            assert(dec(n) == dec(n / 10).push(dec_char((n % 10) as int)));
        }
        assert(s@ =~= s0 + dec(n));
    }
}

/// `String::push`: appends the character `c` at the end of `s`.
#[verifier::external_body]
pub(crate) fn push_char(s: &mut String, c: char)
    ensures
        final(s)@ == old(s)@.push(c),
{
    s.push(c);
}

/// `String::pop`: removes the last character of `s` and returns it, or returns `None`
/// and leaves `s` as it is when `s` is empty.
#[verifier::external_body]
pub(crate) fn pop_char(s: &mut String) -> (c: Option<char>)
    ensures
        old(s)@.len() == 0 ==> c is None && final(s)@ == old(s)@,
        old(s)@.len() > 0 ==> c == Some(old(s)@.last()) && final(s)@ == old(s)@.drop_last(),
{
    s.pop()
}

/// Whether `c` is an ASCII decimal digit.
pub open spec fn is_digit(c: char) -> bool {
    '0' <= c <= '9'
}

/// The value of a string of decimal digits.
pub open spec fn digits_value(s: Seq<char>) -> int
    decreases s.len(),
{
    if s.len() == 0 {
        0
    } else {
        digits_value(s.drop_last()) * 10 + (s.last() as int - '0' as int)
    }
}

/// Parsing an unsigned integer the way Rust's `from_str` does for unsigned types:
/// an optional `+`, then one or more ASCII digits, with a value at most `max`.
pub open spec fn parse_unsigned(s: Seq<char>, max: int) -> Option<int> {
    parse_digits(if s.len() > 0 && s[0] == '+' { s.subrange(1, s.len() as int) } else { s }, max)
}

/// All characters are ASCII digits.
pub open spec fn all_digits(d: Seq<char>) -> bool {
    forall|i: int| 0 <= i < d.len() ==> is_digit(#[trigger] d[i])
}

/// The value of a non-empty run of digits, if it is at most `max`.
pub open spec fn parse_digits(d: Seq<char>, max: int) -> Option<int> {
    if d.len() > 0 && all_digits(d) && digits_value(d) <= max {
        Some(digits_value(d))
    } else {
        None
    }
}

proof fn lemma_digits_value_nonneg(s: Seq<char>)
    requires
        forall|i: int| 0 <= i < s.len() ==> is_digit(#[trigger] s[i]),
    ensures
        digits_value(s) >= 0,
    decreases s.len(),
{
    if s.len() > 0 {
        lemma_digits_value_nonneg(s.drop_last());
    }
}

proof fn lemma_digits_value_grows(s: Seq<char>, t: Seq<char>)
    requires
        forall|i: int| 0 <= i < t.len() ==> is_digit(#[trigger] t[i]),
        s.len() <= t.len(),
        s == t.subrange(0, s.len() as int),
    ensures
        digits_value(s) <= digits_value(t),
    decreases t.len() - s.len(),
{
    if s.len() == t.len() {
        assert(t.subrange(0, t.len() as int) =~= t);
    } else {
        let t1 = t.drop_last();
        assert(s =~= t1.subrange(0, s.len() as int));
        lemma_digits_value_grows(s, t1);
        lemma_digits_value_nonneg(t1);
        assert(forall|i: int| 0 <= i < t1.len() ==> is_digit(#[trigger] t1[i]) ) by {
            assert forall|i: int| 0 <= i < t1.len() implies is_digit(#[trigger] t1[i]) by {
                assert(t1[i] == t[i]);
            }
        }
        lemma_digits_value_nonneg(t1);
        assert(is_digit(t[t.len() - 1]));
        assert(digits_value(t) == digits_value(t1) * 10 + (t.last() as int - '0' as int));
    }
}

/// Parse an unsigned decimal number no larger than `max` (see `parse_unsigned`).
pub fn parse_decimal(s: &str, max: u64) -> (r: Option<u64>)
    ensures
        match parse_unsigned(s@, max as int) {
            Some(v) => r == Some(v as u64) && 0 <= v <= max,
            None => r is None,
        },
{
    let n = s.unicode_len();
    let mut i: usize = 0;
    if n > 0 && s.get_char(0) == '+' {
        i = 1;
    }
    let start = i;
    let ghost d = s@.subrange(start as int, n as int);
    proof {
        if n > 0 && s@[0] == '+' {
            assert(d == s@.subrange(1, s@.len() as int));
        } else {
            assert(d =~= s@);
        }
        assert(parse_unsigned(s@, max as int) == parse_digits(d, max as int));
    }
    if start >= n {
        proof { assert(d.len() == 0); }
        return None;
    }
    let mut v: u64 = 0;
    while i < n
        invariant
            n == s@.len(),
            start < n,
            start <= i <= n,
            d == s@.subrange(start as int, n as int),
            parse_unsigned(s@, max as int) == parse_digits(d, max as int),
            forall|k: int| start <= k < i ==> is_digit(#[trigger] s@[k]),
            v as int == digits_value(s@.subrange(start as int, i as int)),
            v <= max,
        decreases n - i,
    {
        let c = s.get_char(i);
        let ghost pre = s@.subrange(start as int, i as int);
        let ghost next = s@.subrange(start as int, i as int + 1);
        proof {
            assert(next.drop_last() =~= pre);
            assert(next.last() == c);
            assert(d[i - start] == c);
        }
        if !('0' <= c && c <= '9') {
            proof { assert(!is_digit(d[i - start])); }
            return None;
        }
        let digit: u64 = (c as u32 - '0' as u32) as u64;
        assert(digits_value(next) == v * 10 + digit);
        if digit > max || v > (max - digit) / 10 {
            proof {
                assert(v * 10 + digit > max) by (nonlinear_arith)
                    requires digit > max || v > (max - digit) / 10, digit <= max ==> v > (max - digit) / 10, v >= 0;
                if all_digits(d) {
                    assert(next =~= d.subrange(0, next.len() as int));
                    lemma_digits_value_grows(next, d);
                }
            }
            return None;
        }
        proof {
            assert(v * 10 + digit <= max) by (nonlinear_arith)
                requires v <= (max - digit) / 10, digit <= max;
        }
        v = v * 10 + digit;
        i = i + 1;
    }
    proof {
        assert(s@.subrange(start as int, n as int) == d);
        assert forall|k: int| 0 <= k < d.len() implies is_digit(#[trigger] d[k]) by {
            assert(d[k] == s@[start + k]);
        }
        lemma_digits_value_nonneg(d);
    }
    Some(v)
}


/// `c` with ASCII capitals lowered.
pub open spec fn ascii_lower(c: char) -> char {
    if 'A' <= c <= 'Z' {
        ((c as u8) + 32) as char
    } else {
        c
    }
}

/// `s` with ASCII capitals lowered.
pub open spec fn lower_ascii(s: Seq<char>) -> Seq<char> {
    Seq::new(s.len(), |i: int| ascii_lower(s[i]))
}

/// Whether two strings hold the same characters.
pub fn str_equal(a: &str, b: &str) -> (r: bool)
    ensures
        r == (a@ == b@),
{
    let n = a.unicode_len();
    if n != b.unicode_len() {
        return false;
    }
    let mut i: usize = 0;
    while i < n
        invariant
            n == a@.len(),
            n == b@.len(),
            i <= n,
            forall|k: int| 0 <= k < i ==> a@[k] == b@[k],
        decreases n - i,
    {
        if a.get_char(i) != b.get_char(i) {
            return false;
        }
        i = i + 1;
    }
    proof { assert(a@ =~= b@); }
    true
}

/// `c` with an ASCII capital lowered.
fn lower_char(c: char) -> (r: char)
    ensures
        r == ascii_lower(c),
{
    if 'A' <= c && c <= 'Z' {
        ((c as u8) + 32) as char
    } else {
        c
    }
}

/// Whether two strings are equal once ASCII capitals are lowered.
pub fn eq_ignore_ascii_case(a: &str, b: &str) -> (r: bool)
    ensures
        r == (lower_ascii(a@) == lower_ascii(b@)),
{
    let n = a.unicode_len();
    if n != b.unicode_len() {
        proof { assert(lower_ascii(a@).len() != lower_ascii(b@).len()); }
        return false;
    }
    let mut i: usize = 0;
    while i < n
        invariant
            n == a@.len(),
            n == b@.len(),
            i <= n,
            forall|k: int| 0 <= k < i ==> ascii_lower(a@[k]) == ascii_lower(b@[k]),
        decreases n - i,
    {
        if lower_char(a.get_char(i)) != lower_char(b.get_char(i)) {
            proof { assert(lower_ascii(a@)[i as int] != lower_ascii(b@)[i as int]); }
            return false;
        }
        i = i + 1;
    }
    proof { assert(lower_ascii(a@) =~= lower_ascii(b@)); }
    true
}

} // verus!
