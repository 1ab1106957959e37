//! Numbers as text: decimal numerals, unsigned parsing and hexadecimal bytes.

use vstd::prelude::*;

use crate::text;

verus! {

/// Whether `c` is one of `0` to `9`.
pub open spec fn is_digit(c: char) -> bool {
    '0' <= c && c <= '9'
}

/// Whether every character of `s` is one of `0` to `9`.
pub open spec fn all_digits(s: Seq<char>) -> bool {
    forall|i: int| 0 <= i < s.len() ==> is_digit(#[trigger] s[i])
}

/// The number that the decimal digits `s` stand for.
pub open spec fn digits_value(s: Seq<char>) -> nat
    decreases s.len(),
{
    if s.len() == 0 {
        0
    } else {
        digits_value(s.drop_last()) * 10 + (s.last() as nat - '0' as nat) as nat
    }
}

/// `s` without one plus sign before it.
pub open spec fn unsigned_part(s: Seq<char>) -> Seq<char> {
    if s.len() > 0 && s[0] == '+' {
        s.skip(1)
    } else {
        s
    }
}

/// The number that `s` is a numeral of: an optional plus sign and at least one
/// decimal digit, with a value that fits in 32 bits.
pub open spec fn u32_value(s: Seq<char>) -> Option<u32> {
    let digits = unsigned_part(s);
    if digits.len() > 0 && all_digits(digits) && digits_value(digits) <= u32::MAX {
        Some(digits_value(digits) as u32)
    } else {
        None
    }
}

/// A numeral is worth at least as much as what it begins with.
proof fn lemma_digits_value_grows(s: Seq<char>, k: int)
    requires
        0 <= k <= s.len(),
        all_digits(s),
    ensures
        digits_value(s.take(k)) <= digits_value(s),
    decreases s.len() - k,
{
    if k < s.len() {
        lemma_digits_value_grows(s, k + 1);
        let longer = s.take(k + 1);
        assert(longer.drop_last() == s.take(k));
        assert(is_digit(s[k]));
    } else {
        assert(s.take(k) == s);
    }
}

/// Reads an unsigned 32-bit numeral.
pub fn parse_u32(s: &str) -> (r: Option<u32>)
    ensures
        r == u32_value(s@),
{
    let cs = text::to_chars(s);
    let n: usize = cs.len();
    let start: usize = if n > 0 && cs[0] == '+' {
        1
    } else {
        0
    };
    let ghost digits = unsigned_part(s@);
    assert(digits == cs@.skip(start as int));
    if start == n {
        return None;
    }
    let mut i: usize = start;
    let mut value: u32 = 0;
    assert(digits.take(0) == Seq::<char>::empty());
    while i < n
        invariant
            cs@ == s@,
            n == cs@.len(),
            start <= i <= n,
            start < n,
            digits == unsigned_part(s@),
            digits == cs@.skip(start as int),
            all_digits(digits.take(i - start)),
            value == digits_value(digits.take(i - start)),
        decreases n - i,
    {
        let c = cs[i];
        let ghost k = i - start;
        assert(digits[k] == c);
        if c < '0' || c > '9' {
            assert(!is_digit(digits[k]));
            return None;
        }
        let d: u32 = (c as u8 - 48) as u32;
        let ghost longer = digits.take(k + 1);
        assert(longer.drop_last() == digits.take(k));
        assert(longer == digits.take(k).push(c));
        if value > (u32::MAX - d) / 10 {
            proof {
                if all_digits(digits) {
                    lemma_digits_value_grows(digits, k + 1);
                }
            }
            return None;
        }
        value = value * 10 + d;
        i += 1;
    }
    assert(digits.take(i - start) == digits);
    Some(value)
}

/// The digit `d` as a character.
pub open spec fn digit_char(d: nat) -> char {
    ('0' as nat + d) as char
}

/// The decimal numeral of `n`.
pub open spec fn decimal_text(n: nat) -> Seq<char>
    decreases n,
{
    if n < 10 {
        seq![digit_char(n)]
    } else {
        decimal_text(n / 10).push(digit_char(n % 10))
    }
}

/// The decimal numeral of `n`.
pub fn decimal(n: u128) -> (r: String)
    ensures
        r@ == decimal_text(n as nat),
    decreases n,
{
    let d: u8 = (n % 10) as u8;
    let c = (48u8 + d) as char;
    let mut out = if n < 10 {
        String::new()
    } else {
        decimal(n / 10)
    };
    out.push(c);
    out
}

/// A decimal numeral is made of digits, and stands for its number.
pub proof fn law_decimal_reads_back(n: nat)
    ensures
        decimal_text(n).len() > 0,
        all_digits(decimal_text(n)),
        digits_value(decimal_text(n)) == n,
    decreases n,
{
    if n < 10 {
        let t = decimal_text(n);
        assert(t.drop_last() =~= Seq::<char>::empty());
        assert(digits_value(t.drop_last()) == 0);
        assert(is_digit(t[0]));
    } else {
        law_decimal_reads_back(n / 10);
        let t = decimal_text(n);
        let h = decimal_text(n / 10);
        assert(t.drop_last() =~= h);
        assert forall|i: int| 0 <= i < t.len() implies is_digit(#[trigger] t[i]) by {
            if i < h.len() {
                assert(is_digit(h[i]));
            }
        }
    }
}

/// The lower-case hexadecimal digit of `n`.
pub open spec fn hex_digit(n: int) -> char {
    if n < 10 {
        ('0' as int + n) as char
    } else {
        ('a' as int + n - 10) as char
    }
}

/// Each of `bytes` as two lower-case hexadecimal digits.
pub open spec fn hex_text(bytes: Seq<u8>) -> Seq<char>
    decreases bytes.len(),
{
    if bytes.len() == 0 {
        Seq::empty()
    } else {
        let b = bytes.last() as int;
        hex_text(bytes.drop_last()).push(hex_digit(b / 16)).push(hex_digit(b % 16))
    }
}

/// The lower-case hexadecimal digit of `n`.
fn hex_char(n: u8) -> (r: char)
    requires
        n < 16,
    ensures
        r == hex_digit(n as int),
{
    if n < 10 {
        (48u8 + n) as char
    } else {
        (87u8 + n) as char
    }
}

/// Each of `bytes` as two lower-case hexadecimal digits.
pub fn to_hex(bytes: &[u8]) -> (r: String)
    ensures
        r@ == hex_text(bytes@),
{
    let mut out = String::new();
    let mut i: usize = 0;
    while i < bytes.len()
        invariant
            i <= bytes@.len(),
            out@ == hex_text(bytes@.take(i as int)),
        decreases bytes@.len() - i,
    {
        let b: u8 = bytes[i];
        out.push(hex_char(b / 16));
        out.push(hex_char(b % 16));
        assert(bytes@.take(i + 1).drop_last() == bytes@.take(i as int));
        i += 1;
    }
    assert(bytes@.take(i as int) == bytes@);
    out
}

/// Two digits for each byte.
pub proof fn lemma_hex_len(bytes: Seq<u8>)
    ensures
        hex_text(bytes).len() == 2 * bytes.len(),
    decreases bytes.len(),
{
    if bytes.len() > 0 {
        lemma_hex_len(bytes.drop_last());
    }
}

/// Hexadecimal text is already in lower case.
pub proof fn lemma_hex_lower(bytes: Seq<u8>)
    ensures
        text::lowered(hex_text(bytes)) == hex_text(bytes),
    decreases bytes.len(),
{
    if bytes.len() > 0 {
        lemma_hex_lower(bytes.drop_last());
        let h = hex_text(bytes.drop_last());
        let t = hex_text(bytes);
        assert forall|i: int| 0 <= i < t.len() implies text::lower_char(#[trigger] t[i]) == t[i] by {
            if i < h.len() {
                assert(text::lowered(h)[i] == h[i]);
            }
        }
        assert(text::lowered(t) =~= t);
    }
}

/// Different bytes have different hexadecimal texts.
pub proof fn law_hex_injective(a: Seq<u8>, b: Seq<u8>)
    requires
        hex_text(a) == hex_text(b),
    ensures
        a == b,
    decreases a.len(),
{
    lemma_hex_len(a);
    lemma_hex_len(b);
    if a.len() > 0 {
        let ha = hex_text(a);
        let hb = hex_text(b);
        let x = a.last() as int;
        let y = b.last() as int;
        assert(ha.drop_last().drop_last() =~= hex_text(a.drop_last()));
        assert(hb.drop_last().drop_last() =~= hex_text(b.drop_last()));
        law_hex_injective(a.drop_last(), b.drop_last());
        assert(hex_digit(x % 16) == ha.last());
        assert(hex_digit(x / 16) == ha.drop_last().last());
        assert(hex_digit(y % 16) == hb.last());
        assert(hex_digit(y / 16) == hb.drop_last().last());
        assert(x == y);
        assert(a =~= a.drop_last().push(a.last()));
        assert(b =~= b.drop_last().push(b.last()));
    } else {
        assert(a =~= b);
    }
}

/// A numeral is read as the number that it was written for, with or without a plus
/// sign, as long as that fits; one digit too much, or anything else, is not read.
pub proof fn law_numeral_is_read(n: nat)
    ensures
        n <= u32::MAX ==> u32_value(decimal_text(n)) == Some(n as u32),
        n <= u32::MAX ==> u32_value(seq!['+'] + decimal_text(n)) == Some(n as u32),
        n > u32::MAX ==> u32_value(decimal_text(n)) is None,
{
    law_decimal_reads_back(n);
    let t = decimal_text(n);
    assert(is_digit(t[0]));
    assert((seq!['+'] + t).skip(1) =~= t);
}

/// What is not made of digits is no numeral.
pub proof fn law_other_texts_are_no_numerals(s: Seq<char>, i: int)
    requires
        0 <= i < s.len(),
        !is_digit(s[i]),
        i > 0 || s[0] != '+',
    ensures
        u32_value(s) is None,
{
    if s[0] == '+' {
        assert(s.skip(1)[i - 1] == s[i]);
    }
}

/// A zero in front does not change a number.
pub proof fn law_leading_zero(s: Seq<char>)
    ensures
        digits_value(seq!['0'] + s) == digits_value(s),
    decreases s.len(),
{
    let long = seq!['0'] + s;
    if s.len() == 0 {
        assert(long.drop_last() =~= Seq::<char>::empty());
        assert(digits_value(long.drop_last()) == 0);
        assert(long.last() == '0');
    } else {
        law_leading_zero(s.drop_last());
        assert(long.drop_last() =~= seq!['0'] + s.drop_last());
        assert(long.last() == s.last());
    }
}

/// The hexadecimal text of bytes is that of the first ones and then that of the
/// others; one byte takes two digits, the higher one first.
pub proof fn law_hex_byte_by_byte(a: Seq<u8>, b: Seq<u8>, x: u8)
    ensures
        hex_text(a + b) == hex_text(a) + hex_text(b),
        hex_text(seq![x]) == seq![hex_digit(x as int / 16), hex_digit(x as int % 16)],
    decreases b.len(),
{
    assert(seq![x].drop_last() =~= Seq::<u8>::empty());
    assert(hex_text(seq![x].drop_last()) =~= Seq::<char>::empty());
    assert(hex_text(seq![x]) =~= seq![hex_digit(x as int / 16), hex_digit(x as int % 16)]);
    if b.len() == 0 {
        assert(a + b =~= a);
        assert(hex_text(a) + hex_text(b) =~= hex_text(a));
    } else {
        law_hex_byte_by_byte(a, b.drop_last(), x);
        assert((a + b).drop_last() =~= a + b.drop_last());
        assert((a + b).last() == b.last());
        assert(hex_text(a + b) =~= hex_text(a) + hex_text(b));
    }
}

/// The hexadecimal digits are `0` to `9` and then `a` to `f`.
pub proof fn law_hex_digits(n: int)
    requires
        0 <= n < 16,
    ensures
        n < 10 ==> hex_digit(n) as int == '0' as int + n,
        n >= 10 ==> hex_digit(n) as int == 'a' as int + (n - 10),
{
}

} // verus!
