//! Decimal and hexadecimal numerals in text.
use vstd::prelude::*;

use crate::error::Error;

verus! {

/// A decimal digit character.
pub open spec fn is_dec_digit(c: char) -> bool {
    '0' <= c && c <= '9'
}

/// A hexadecimal digit character, in either case.
pub open spec fn is_hex_digit(c: char) -> bool {
    ('0' <= c && c <= '9') || ('a' <= c && c <= 'f') || ('A' <= c && c <= 'F')
}

/// The value of a (decimal or hexadecimal) digit character.
pub open spec fn digit_value(c: char) -> nat {
    if '0' <= c && c <= '9' {
        (c as u32 - 48) as nat
    } else if 'a' <= c && c <= 'f' {
        (c as u32 - 87) as nat
    } else {
        (c as u32 - 55) as nat
    }
}

/// The lowercase digit character of a value below 16.
pub open spec fn digit_char(d: nat) -> char {
    if d < 10 {
        ((48 + d) as u8) as char
    } else {
        ((87 + d) as u8) as char
    }
}

/// The value of a string of decimal digits.
pub open spec fn dec_value(s: Seq<char>) -> nat
    decreases s.len(),
{
    if s.len() == 0 {
        0
    } else {
        dec_value(s.drop_last()) * 10 + digit_value(s.last())
    }
}

/// The value of a string of hexadecimal digits.
pub open spec fn hex_value(s: Seq<char>) -> nat
    decreases s.len(),
{
    if s.len() == 0 {
        0
    } else {
        hex_value(s.drop_last()) * 16 + digit_value(s.last())
    }
}

/// The decimal digits of a number, most significant first, without leading zeros.
pub open spec fn spec_dec(n: nat) -> Seq<char>
    decreases n,
{
    if n < 10 {
        seq![digit_char(n)]
    } else {
        spec_dec(n / 10).push(digit_char(n % 10))
    }
}

/// The lowercase hexadecimal digits of a number, most significant first,
/// without leading zeros.
pub open spec fn spec_hex_digits(n: nat) -> Seq<char>
    decreases n,
{
    if n < 16 {
        seq![digit_char(n)]
    } else {
        spec_hex_digits(n / 16).push(digit_char(n % 16))
    }
}

/// A number written as "0x" followed by its lowercase hexadecimal digits.
pub open spec fn spec_hex(n: nat) -> Seq<char> {
    seq!['0', 'x'] + spec_hex_digits(n)
}

/// Every character is a decimal digit.
pub open spec fn all_dec_digits(d: Seq<char>) -> bool {
    forall|i: int| 0 <= i < d.len() ==> is_dec_digit(#[trigger] d[i])
}

/// The part of a numeral after an optional leading '+'.
pub open spec fn unsigned_digits(s: Seq<char>) -> Seq<char> {
    if s.len() > 0 && s[0] == '+' {
        s.skip(1)
    } else {
        s
    }
}

/// An unsigned decimal numeral as the standard library parses one: an
/// optional '+' and at least one decimal digit, with a value at most `max`.
pub open spec fn spec_parse_dec(s: Seq<char>, max: nat) -> Option<nat> {
    let d = unsigned_digits(s);
    if d.len() > 0 && all_dec_digits(d) && dec_value(d) <= max {
        Some(dec_value(d))
    } else {
        None
    }
}

/// A hexadecimal numeral: "0x" and at least one hexadecimal digit, with a
/// value that fits in 64 bits.
pub open spec fn spec_parse_hex(s: Seq<char>) -> Option<nat> {
    let d = s.skip(2);
    if s.len() > 2 && s[0] == '0' && s[1] == 'x' && (forall|i: int|
        0 <= i < d.len() ==> is_hex_digit(#[trigger] d[i])) && hex_value(d) <= u64::MAX {
        Some(hex_value(d))
    } else {
        None
    }
}

/// A digit character is a digit of its value.
pub proof fn lemma_digit_char(d: nat)
    requires
        d < 16,
    ensures
        digit_value(digit_char(d)) == d,
        is_hex_digit(digit_char(d)),
        d < 10 ==> is_dec_digit(digit_char(d)),
{
    let b: u8 = if d < 10 { (48 + d) as u8 } else { (87 + d) as u8 };
    assert(digit_char(d) == b as char);
    assert((b as char) as u32 == b as u32);
}

/// The decimal digits of a number are digits and have the number as value.
pub proof fn lemma_dec_digits(n: nat)
    ensures
        spec_dec(n).len() > 0,
        forall|i: int| 0 <= i < spec_dec(n).len() ==> is_dec_digit(#[trigger] spec_dec(n)[i]),
        dec_value(spec_dec(n)) == n,
    decreases n,
{
    lemma_digit_char(n % 10);
    let s = spec_dec(n);
    if n < 10 {
        assert(s.drop_last() =~= Seq::<char>::empty());
        assert(dec_value(s) == dec_value(s.drop_last()) * 10 + digit_value(s.last()));
    } else {
        lemma_dec_digits(n / 10);
        assert(s.drop_last() =~= spec_dec(n / 10));
        assert(s.last() == digit_char(n % 10));
        assert(dec_value(s) == dec_value(s.drop_last()) * 10 + digit_value(s.last()));
        assert forall|i: int| 0 <= i < s.len() implies is_dec_digit(#[trigger] s[i]) by {
            if i < s.len() - 1 {
                assert(s[i] == spec_dec(n / 10)[i]);
            }
        }
    }
}

/// The hexadecimal digits of a number are digits and have the number as value.
pub proof fn lemma_hex_digits(n: nat)
    ensures
        spec_hex_digits(n).len() > 0,
        forall|i: int|
            0 <= i < spec_hex_digits(n).len() ==> is_hex_digit(#[trigger] spec_hex_digits(n)[i]),
        hex_value(spec_hex_digits(n)) == n,
    decreases n,
{
    lemma_digit_char(n % 16);
    let s = spec_hex_digits(n);
    if n < 16 {
        assert(s.drop_last() =~= Seq::<char>::empty());
        assert(hex_value(s) == hex_value(s.drop_last()) * 16 + digit_value(s.last()));
    } else {
        lemma_hex_digits(n / 16);
        assert(s.drop_last() =~= spec_hex_digits(n / 16));
        assert(s.last() == digit_char(n % 16));
        assert(hex_value(s) == hex_value(s.drop_last()) * 16 + digit_value(s.last()));
        assert forall|i: int| 0 <= i < s.len() implies is_hex_digit(#[trigger] s[i]) by {
            if i < s.len() - 1 {
                assert(s[i] == spec_hex_digits(n / 16)[i]);
            }
        }
    }
}

/// A number's decimal numeral parses back to the number.
pub proof fn lemma_parse_dec_roundtrip(n: nat, max: nat)
    requires
        n <= max,
    ensures
        spec_parse_dec(spec_dec(n), max) == Some(n),
{
    lemma_dec_digits(n);
}

/// A 64-bit number's hexadecimal numeral parses back to the number.
pub proof fn lemma_parse_hex_roundtrip(n: nat)
    requires
        n <= u64::MAX,
    ensures
        spec_parse_hex(spec_hex(n)) == Some(n),
{
    lemma_hex_digits(n);
    assert(spec_hex(n).skip(2) =~= spec_hex_digits(n));
}

/// A numeral's value is at least that of any of its prefixes.
pub proof fn lemma_dec_prefix_grows(d: Seq<char>, k: int)
    requires
        0 <= k <= d.len(),
    ensures
        dec_value(d) >= dec_value(d.take(k)),
    decreases d.len(),
{
    if k < d.len() {
        lemma_dec_prefix_grows(d.drop_last(), k);
        assert(d.drop_last().take(k) =~= d.take(k));
    } else {
        assert(d.take(k) =~= d);
    }
}

/// `String::push`: the claim is that afterwards the string holds the
/// characters it held before, followed by `c`.
#[verifier::external_body]
pub(crate) fn push_char(s: &mut String, c: char)
    ensures
        final(s)@ == old(s)@.push(c),
{
    s.push(c);
}

fn digit_char_exec(d: u64) -> (c: char)
    requires
        d < 16,
    ensures
        c == digit_char(d as nat),
{
    if d < 10 {
        ((48 + d) as u8) as char
    } else {
        ((87 + d) as u8) as char
    }
}

/// Appends the decimal digits of `n`.
pub fn push_dec(out: &mut String, n: u64)
    ensures
        final(out)@ == old(out)@ + spec_dec(n as nat),
    decreases n,
{
    if n >= 10 {
        push_dec(out, n / 10);
    }
    push_char(out, digit_char_exec(n % 10));
    proof {
        if n >= 10 {
            assert(spec_dec(n as nat) == spec_dec((n / 10) as nat).push(digit_char((n % 10) as nat)));
        }
    }
    assert(final(out)@ =~= old(out)@ + spec_dec(n as nat));
}

/// Appends the lowercase hexadecimal digits of `n`.
pub fn push_hex_digits(out: &mut String, n: u64)
    ensures
        final(out)@ == old(out)@ + spec_hex_digits(n as nat),
    decreases n,
{
    if n >= 16 {
        push_hex_digits(out, n / 16);
    }
    push_char(out, digit_char_exec(n % 16));
    assert(final(out)@ =~= old(out)@ + spec_hex_digits(n as nat));
}

/// Appends "0x" and the lowercase hexadecimal digits of `n`.
pub fn push_hex(out: &mut String, n: u64)
    ensures
        final(out)@ == old(out)@ + spec_hex(n as nat),
{
    push_char(out, '0');
    push_char(out, 'x');
    push_hex_digits(out, n);
    assert(final(out)@ =~= old(out)@ + spec_hex(n as nat));
}

/// Parses an unsigned decimal numeral (an optional '+' and decimal digits)
/// whose value is at most `max`.
pub fn parse_dec(s: &[char], max: u64) -> (r: Option<u64>)
    ensures
        match spec_parse_dec(s@, max as nat) {
            Some(v) => r == Some(v as u64),
            None => r is None,
        },
{
    let start: usize = if s.len() > 0 && s[0] == '+' {
        1
    } else {
        0
    };
    let ghost d = s@.skip(start as int);
    assert(d =~= unsigned_digits(s@));
    if start == s.len() {
        return None;
    }
    let mut value: u64 = 0;
    let mut i: usize = start;
    while i < s.len()
        invariant
            start <= i <= s@.len(),
            d == s@.skip(start as int),
            d == unsigned_digits(s@),
            d.len() > 0,
            forall|j: int| 0 <= j < i - start ==> is_dec_digit(#[trigger] d[j]),
            value == dec_value(d.take(i - start)),
            value <= max,
        decreases s.len() - i,
    {
        let c = s[i];
        assert(c == d[i - start]);
        if !('0' <= c && c <= '9') {
            assert(!is_dec_digit(d[i - start]));
            assert(!all_dec_digits(d));
            return None;
        }
        let digit = (c as u32 - 48) as u64;
        assert(d.take(i + 1 - start).drop_last() =~= d.take(i - start));
        if value > max / 10 || digit > max - value * 10 {
            proof {
                assert(dec_value(d.take(i + 1 - start)) == value * 10 + digit);
                assert(value * 10 + digit > max) by (nonlinear_arith)
                    requires
                        value > max / 10 || (value <= max / 10 && digit > max - value * 10),
                ;
                lemma_dec_prefix_grows(d, i + 1 - start);
                assert(spec_parse_dec(s@, max as nat) is None);
            }
            return None;
        }
        value = value * 10 + digit;
        i = i + 1;
    }
    assert(d.take(d.len() as int) =~= d);
    Some(value)
}

} // verus!

verus! {

/// Parses "0x" followed by hexadecimal digits into a 64-bit value.
pub fn parse_hex(s: &[char]) -> (r: Option<u64>)
    ensures
        match spec_parse_hex(s@) {
            Some(v) => r == Some(v as u64),
            None => r is None,
        },
{
    if !(s.len() > 2 && s[0] == '0' && s[1] == 'x') {
        return None;
    }
    let ghost d = s@.skip(2);
    let mut value: u64 = 0;
    let mut i: usize = 2;
    while i < s.len()
        invariant
            2 <= i <= s@.len(),
            s@.len() > 2 && s@[0] == '0' && s@[1] == 'x',
            d == s@.skip(2),
            forall|j: int| 0 <= j < i - 2 ==> is_hex_digit(#[trigger] d[j]),
            value == hex_value(d.take(i - 2)),
        decreases s.len() - i,
    {
        let c = s[i];
        assert(c == d[i - 2]);
        let digit: u64 = if '0' <= c && c <= '9' {
            (c as u32 - 48) as u64
        } else if 'a' <= c && c <= 'f' {
            (c as u32 - 87) as u64
        } else if 'A' <= c && c <= 'F' {
            (c as u32 - 55) as u64
        } else {
            assert(!is_hex_digit(d[i - 2]));
            return None;
        };
        assert(d.take(i + 1 - 2).drop_last() =~= d.take(i - 2));
        assert(hex_value(d.take(i + 1 - 2)) == value * 16 + digit);
        if value > 0x0fff_ffff_ffff_ffff {
            proof {
                assert(value * 16 + digit > u64::MAX) by (nonlinear_arith)
                    requires
                        value > 0x0fff_ffff_ffff_ffff,
                ;
                lemma_hex_prefix_grows(d, i + 1 - 2);
            }
            return None;
        }
        assert(value * 16 + digit <= u64::MAX) by (nonlinear_arith)
            requires
                value <= 0x0fff_ffff_ffff_ffff,
                digit < 16,
        ;
        value = value * 16 + digit;
        i = i + 1;
    }
    assert(d.take(d.len() as int) =~= d);
    Some(value)
}

/// A hexadecimal numeral's value is at least that of any of its prefixes.
pub proof fn lemma_hex_prefix_grows(d: Seq<char>, k: int)
    requires
        0 <= k <= d.len(),
    ensures
        hex_value(d) >= hex_value(d.take(k)),
    decreases d.len(),
{
    if k < d.len() {
        lemma_hex_prefix_grows(d.drop_last(), k);
        assert(d.drop_last().take(k) =~= d.take(k));
    } else {
        assert(d.take(k) =~= d);
    }
}

/// The characters of a string slice.
pub fn chars_of(s: &str) -> (v: Vec<char>)
    ensures
        v@ == s@,
{
    broadcast use vstd::string::axiom_spec_iter;

    let mut v: Vec<char> = Vec::new();
    for c in it: s.chars()
        invariant
            it.seq() == s@,
            v@ == it.seq().take(it.index() as int),
    {
        assert(it.seq().take(it.index() + 1) =~= it.seq().take(it.index() as int).push(c));
        v.push(c);
    }
    assert(s@.take(s@.len() as int) =~= s@);
    v
}

} // verus!

verus! {

/// A parse error described by the prefix and then a number in decimal.
pub fn parse_error_dec(prefix: &str, n: u64) -> (e: Error)
    ensures
        e matches Error::Parse(m) && m@ == prefix@ + spec_dec(n as nat),
{
    let mut m = prefix.to_owned();
    push_dec(&mut m, n);
    Error::Parse(m)
}

/// A byte in hexadecimal: "0x" and at least two digits.
pub open spec fn spec_hex2(b: u8) -> Seq<char> {
    seq!['0', 'x'] + (if b < 0x10 {
        seq!['0']
    } else {
        seq![]
    }) + spec_hex_digits(b as nat)
}

/// A 16-bit word in hexadecimal: "0x" and at least four digits.
pub open spec fn spec_hex4(w: u16) -> Seq<char> {
    seq!['0', 'x'] + (if w < 0x1000 {
        seq!['0']
    } else {
        seq![]
    }) + (if w < 0x100 {
        seq!['0']
    } else {
        seq![]
    }) + (if w < 0x10 {
        seq!['0']
    } else {
        seq![]
    }) + spec_hex_digits(w as nat)
}

/// A parse error described by the prefix and then a byte in hexadecimal.
pub fn parse_error_hex2(prefix: &str, b: u8) -> (e: Error)
    ensures
        e matches Error::Parse(m) && m@ == prefix@ + spec_hex2(b),
{
    let mut m = prefix.to_owned();
    push_char(&mut m, '0');
    push_char(&mut m, 'x');
    if b < 0x10 {
        push_char(&mut m, '0');
    }
    push_hex_digits(&mut m, b as u64);
    assert(m@ =~= prefix@ + spec_hex2(b));
    Error::Parse(m)
}

/// A parse error described by the prefix and then a word in hexadecimal.
pub fn parse_error_hex4(prefix: &str, w: u16) -> (e: Error)
    ensures
        e matches Error::Parse(m) && m@ == prefix@ + spec_hex4(w),
{
    let mut m = prefix.to_owned();
    push_char(&mut m, '0');
    push_char(&mut m, 'x');
    if w < 0x1000 {
        push_char(&mut m, '0');
    }
    if w < 0x100 {
        push_char(&mut m, '0');
    }
    if w < 0x10 {
        push_char(&mut m, '0');
    }
    push_hex_digits(&mut m, w as u64);
    assert(m@ =~= prefix@ + spec_hex4(w));
    Error::Parse(m)
}

/// A parse error described by the prefix and then the characters in single
/// quotes.
pub fn parse_error_quoted(prefix: &str, cs: &[char]) -> (e: Error)
    ensures
        e matches Error::Parse(m) && m@ == prefix@ + seq!['\''] + cs@ + seq!['\''],
{
    let mut m = prefix.to_owned();
    push_char(&mut m, '\'');
    let ghost start = m@;
    for i in 0..cs.len()
        invariant
            m@ == start + cs@.take(i as int),
    {
        push_char(&mut m, cs[i]);
        assert(cs@.take(i + 1) =~= cs@.take(i as int).push(cs@[i as int]));
    }
    assert(cs@.take(cs@.len() as int) =~= cs@);
    push_char(&mut m, '\'');
    assert(m@ =~= prefix@ + seq!['\''] + cs@ + seq!['\'']);
    Error::Parse(m)
}

/// Bytes in decimal, in square brackets and separated by ", ".
pub open spec fn spec_dec_list(bs: Seq<u8>) -> Seq<char> {
    seq!['['] + spec_dec_items(bs) + seq![']']
}

/// Bytes in decimal, separated by ", ".
pub open spec fn spec_dec_items(bs: Seq<u8>) -> Seq<char>
    decreases bs.len(),
{
    if bs.len() == 0 {
        seq![]
    } else if bs.len() == 1 {
        spec_dec(bs[0] as nat)
    } else {
        spec_dec_items(bs.drop_last()) + seq![',', ' '] + spec_dec(bs.last() as nat)
    }
}

/// A parse error described by the prefix and then the bytes as a list in
/// decimal.
pub fn parse_error_bytes(prefix: &str, bs: &[u8]) -> (e: Error)
    ensures
        e matches Error::Parse(m) && m@ == prefix@ + spec_dec_list(bs@),
{
    let mut m = prefix.to_owned();
    push_char(&mut m, '[');
    let ghost start = m@;
    assert(bs@.take(0) =~= Seq::<u8>::empty());
    for i in 0..bs.len()
        invariant
            m@ == start + spec_dec_items(bs@.take(i as int)),
    {
        if i > 0 {
            push_char(&mut m, ',');
            push_char(&mut m, ' ');
        }
        push_dec(&mut m, bs[i] as u64);
        assert(bs@.take(i + 1).drop_last() =~= bs@.take(i as int));
        assert(bs@.take(i + 1).last() == bs@[i as int]);
        assert(m@ =~= start + spec_dec_items(bs@.take(i + 1)));
    }
    assert(bs@.take(bs@.len() as int) =~= bs@);
    push_char(&mut m, ']');
    assert(m@ =~= prefix@ + spec_dec_list(bs@));
    Error::Parse(m)
}

} // verus!
