//! Spec-level numerals: the value denoted by decimal digit strings, powers of
//! ten, and hexadecimal digits. These are the vocabulary in which the address
//! and balance formatting contracts are stated.

use vstd::prelude::*;

verus! {

/// The ten decimal digit characters.
pub open spec fn is_dec_digit(c: char) -> bool {
    '0' <= c && c <= '9'
}

/// Numeric value of a decimal digit character.
pub open spec fn digit_val(c: char) -> nat
    recommends
        is_dec_digit(c),
{
    (c as u32 - 48) as nat
}

/// Every character of `s` is a decimal digit.
pub open spec fn all_dec_digits(s: Seq<char>) -> bool {
    forall|i: int| 0 <= i < s.len() ==> is_dec_digit(#[trigger] s[i])
}

/// The natural number denoted by a sequence of decimal digits, most
/// significant digit first. The empty sequence denotes zero.
pub open spec fn digits_value(s: Seq<char>) -> nat
    decreases s.len(),
{
    if s.len() == 0 {
        0
    } else {
        digits_value(s.drop_last()) * 10 + digit_val(s.last())
    }
}

/// Ten to the `n`th power.
pub open spec fn pow10(n: nat) -> nat
    decreases n,
{
    if n == 0 {
        1
    } else {
        10 * pow10((n - 1) as nat)
    }
}

/// `n` repetitions of the digit `0`.
pub open spec fn zero_chars(n: nat) -> Seq<char> {
    Seq::new(n, |i: int| '0')
}

/// Concatenating digit strings multiplies the leading part by the
/// corresponding power of ten.
pub proof fn lemma_digits_value_append(a: Seq<char>, b: Seq<char>)
    ensures
        digits_value(a + b) == digits_value(a) * pow10(b.len()) + digits_value(b),
    decreases b.len(),
{
    if b.len() == 0 {
        assert(a + b =~= a);
        assert(pow10(b.len()) == 1);
        assert(digits_value(b) == 0);
        assert(digits_value(a) * pow10(b.len()) == digits_value(a)) by (nonlinear_arith)
            requires pow10(b.len()) == 1,
        ;
        assert(digits_value(a + b) == digits_value(a) * pow10(b.len()) + digits_value(b));
    } else {
        let b0 = b.drop_last();
        lemma_digits_value_append(a, b0);
        assert((a + b).drop_last() =~= a + b0);
        assert((a + b).last() == b.last());
        let x = digits_value(a);
        let y = digits_value(b0);
        let p0 = pow10(b0.len());
        let p = pow10(b.len());
        let d = digit_val(b.last());
        assert(digits_value(a + b) == (x * p0 + y) * 10 + d);
        assert(digits_value(b) == y * 10 + d);
        assert((x * p0 + y) * 10 + d == x * p + (y * 10 + d)) by (nonlinear_arith)
            requires
                p == 10 * p0,
        ;
        assert(digits_value(a + b) == digits_value(a) * pow10(b.len()) + digits_value(b));
    }
}

/// A run of zeros denotes zero.
pub proof fn lemma_zero_chars_value(n: nat)
    ensures
        digits_value(zero_chars(n)) == 0,
        all_dec_digits(zero_chars(n)),
    decreases n,
{
    if n > 0 {
        lemma_zero_chars_value((n - 1) as nat);
        assert(zero_chars(n).drop_last() =~= zero_chars((n - 1) as nat));
        assert(zero_chars(n).last() == '0');
    }
}

/// Leading zeros do not change the denoted value.
pub proof fn lemma_zero_prefix_value(n: nat, b: Seq<char>)
    ensures
        digits_value(zero_chars(n) + b) == digits_value(b),
{
    lemma_zero_chars_value(n);
    lemma_digits_value_append(zero_chars(n), b);
}

/// A digit string's value stays below ten to its length.
pub proof fn lemma_digits_value_bound(s: Seq<char>)
    requires
        all_dec_digits(s),
    ensures
        digits_value(s) < pow10(s.len()),
    decreases s.len(),
{
    if s.len() > 0 {
        let s0 = s.drop_last();
        assert(all_dec_digits(s0)) by {
            assert(forall|i: int| 0 <= i < s0.len() ==> s0[i] == s[i]);
        }
        lemma_digits_value_bound(s0);
        assert(is_dec_digit(s.last()));
        assert(digit_val(s.last()) <= 9);
        assert(digits_value(s0) * 10 + digit_val(s.last()) < pow10(s.len())) by (nonlinear_arith)
            requires
                digits_value(s0) < pow10((s.len() - 1) as nat),
                digit_val(s.last()) <= 9,
                pow10(s.len()) == 10 * pow10((s.len() - 1) as nat),
        ;
    }
}

/// Powers of ten grow with the exponent.
proof fn lemma_pow10_mono(a: nat, b: nat)
    requires
        a <= b,
    ensures
        pow10(a) <= pow10(b),
    decreases b,
{
    if a < b {
        lemma_pow10_mono(a, (b - 1) as nat);
        assert(pow10(b) == 10 * pow10((b - 1) as nat));
    }
}

/// Reading a digit string from the front: the first digit carries the
/// highest power of ten.
proof fn lemma_digits_value_first(s: Seq<char>)
    requires
        s.len() >= 1,
    ensures
        digits_value(s) == digit_val(s[0]) * pow10((s.len() - 1) as nat) + digits_value(s.skip(1)),
{
    lemma_digits_value_append(s.take(1), s.skip(1));
    assert(s.take(1) + s.skip(1) =~= s);
    assert(digits_value(s.take(1)) == digit_val(s[0])) by {
        assert(s.take(1).len() == 1);
        assert(s.take(1).drop_last() =~= Seq::<char>::empty());
        assert(s.take(1).last() == s[0]);
        assert(digits_value(Seq::<char>::empty()) == 0);
        assert(digits_value(s.take(1)) == digits_value(s.take(1).drop_last()) * 10 + digit_val(
            s.take(1).last(),
        ));
    }
}

/// A digit string that does not start with zero is at least ten to one less
/// than its length.
proof fn lemma_leading_digit_bound(s: Seq<char>)
    requires
        all_dec_digits(s),
        s.len() >= 1,
        s[0] != '0',
    ensures
        digits_value(s) >= pow10((s.len() - 1) as nat),
{
    lemma_digits_value_first(s);
    assert(is_dec_digit(s[0]));
    assert(digit_val(s[0]) >= 1) by {
        vstd::utf8::char_u32_cast(s[0], s[0] as u32);
        vstd::utf8::char_u32_cast('0', '0' as u32);
    }
    assert(digit_val(s[0]) * pow10((s.len() - 1) as nat) >= pow10((s.len() - 1) as nat))
        by (nonlinear_arith)
        requires
            digit_val(s[0]) >= 1,
    ;
}

/// Equal-length digit strings with the same value are the same string.
pub proof fn lemma_digits_same_length_unique(s1: Seq<char>, s2: Seq<char>)
    requires
        all_dec_digits(s1),
        all_dec_digits(s2),
        s1.len() == s2.len(),
        digits_value(s1) == digits_value(s2),
    ensures
        s1 == s2,
    decreases s1.len(),
{
    if s1.len() == 0 {
        assert(s1 =~= s2);
    } else {
        let a1 = s1.drop_last();
        let a2 = s2.drop_last();
        assert(is_dec_digit(s1.last()) && is_dec_digit(s2.last()));
        assert(digit_val(s1.last()) <= 9 && digit_val(s2.last()) <= 9);
        assert(digits_value(a1) == digits_value(a2) && digit_val(s1.last()) == digit_val(
            s2.last(),
        ));
        assert(s1.last() == s2.last()) by {
            vstd::utf8::char_u32_cast(s1.last(), s1.last() as u32);
            vstd::utf8::char_u32_cast(s2.last(), s2.last() as u32);
        }
        assert(all_dec_digits(a1)) by {
            assert(forall|i: int| 0 <= i < a1.len() ==> a1[i] == s1[i]);
        }
        assert(all_dec_digits(a2)) by {
            assert(forall|i: int| 0 <= i < a2.len() ==> a2[i] == s2[i]);
        }
        lemma_digits_same_length_unique(a1, a2);
        assert(s1 =~= a1.push(s1.last()));
        assert(s2 =~= a2.push(s2.last()));
    }
}

/// Digit strings without superfluous leading zeros render each value in
/// exactly one way.
pub proof fn lemma_digits_unique(s1: Seq<char>, s2: Seq<char>)
    requires
        all_dec_digits(s1),
        all_dec_digits(s2),
        s1.len() >= 1,
        s2.len() >= 1,
        s1.len() > 1 ==> s1[0] != '0',
        s2.len() > 1 ==> s2[0] != '0',
        digits_value(s1) == digits_value(s2),
    ensures
        s1 == s2,
{
    if s1.len() < s2.len() {
        lemma_digits_value_bound(s1);
        lemma_leading_digit_bound(s2);
        lemma_pow10_mono(s1.len(), (s2.len() - 1) as nat);
    } else if s2.len() < s1.len() {
        lemma_digits_value_bound(s2);
        lemma_leading_digit_bound(s1);
        lemma_pow10_mono(s2.len(), (s1.len() - 1) as nat);
    }
    lemma_digits_same_length_unique(s1, s2);
}

/// The sixteen hexadecimal digit characters, either case.
pub open spec fn is_hex_digit(c: char) -> bool {
    ('0' <= c && c <= '9') || ('a' <= c && c <= 'f') || ('A' <= c && c <= 'F')
}

/// Numeric value of a hexadecimal digit character.
pub open spec fn hex_val(c: char) -> u8
    recommends
        is_hex_digit(c),
{
    if '0' <= c && c <= '9' {
        (c as u32 - 48) as u8
    } else if 'a' <= c && c <= 'f' {
        (c as u32 - 87) as u8
    } else {
        (c as u32 - 55) as u8
    }
}

/// The lowercase hexadecimal digit character for a value below sixteen.
pub open spec fn hex_char(d: u8) -> char
    recommends
        d < 16,
{
    if d < 10 {
        ((d + 48) as u8) as char
    } else {
        ((d + 87) as u8) as char
    }
}

/// Rendering a nibble as a lowercase hex digit and reading it back is the
/// identity.
pub proof fn lemma_hex_roundtrip(d: u8)
    requires
        d < 16,
    ensures
        is_hex_digit(hex_char(d)),
        hex_val(hex_char(d)) == d,
        hex_char(d) as u32 <= 0x7f,
{
    vstd::utf8::char_u32_cast(hex_char(d), hex_char(d) as u32);
}

} // verus!
