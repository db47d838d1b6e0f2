//! Account addresses: a fixed 20-byte identifier, its canonical `0x`-prefixed
//! lowercase hexadecimal rendering, and the spec-level description of which
//! strings parse back to which address.

use vstd::prelude::*;

use crate::digits::{hex_char, hex_val, is_hex_digit, lemma_hex_roundtrip};

verus! {

/// A fixed 20-byte account identifier.
#[derive(Clone, Copy, PartialEq, Eq, Hash, Debug)]
#[verifier::ext_equal]
pub struct Address {
    pub bytes: [u8; 20],
}

impl Address {
    /// Byte-wise equality test, usable from verified code (the derived
    /// `PartialEq` is opaque to the verifier).
    pub fn eq_addr(&self, other: &Address) -> (r: bool)
        ensures
            r == (self == other),
    {
        broadcast use vstd::array::group_array_axioms;

        let mut i: usize = 0;
        while i < 20
            invariant
                i <= 20,
                forall|j: int| 0 <= j < i ==> self.bytes@[j] == other.bytes@[j],
            decreases 20 - i,
        {
            if self.bytes[i] != other.bytes[i] {
                return false;
            }
            i += 1;
        }
        proof {
            assert(self.bytes =~= other.bytes);
            assert(*self =~= *other);
        }
        true
    }
}

/// Lowercase hexadecimal rendering of a byte string, two digits per byte.
pub open spec fn hex_of_bytes(bs: Seq<u8>) -> Seq<char>
    decreases bs.len(),
{
    if bs.len() == 0 {
        Seq::empty()
    } else {
        hex_of_bytes(bs.drop_last()) + seq![
            hex_char(bs.last() / 16),
            hex_char(bs.last() % 16),
        ]
    }
}

pub proof fn lemma_hex_of_bytes_len(bs: Seq<u8>)
    ensures
        hex_of_bytes(bs).len() == 2 * bs.len(),
    decreases bs.len(),
{
    if bs.len() > 0 {
        lemma_hex_of_bytes_len(bs.drop_last());
    }
}

/// The canonical rendering of an address: `0x` followed by 40 lowercase
/// hexadecimal digits.
pub open spec fn address_chars(a: Address) -> Seq<char> {
    seq!['0', 'x'] + hex_of_bytes(a.bytes@)
}

/// Single lowercase hexadecimal digit as a string slice.
fn hex_char_str(d: u8) -> (r: &'static str)
    requires
        d < 16,
    ensures
        r@ == seq![hex_char(d)],
{
    let r: &'static str = match d {
        0 => "0",
        1 => "1",
        2 => "2",
        3 => "3",
        4 => "4",
        5 => "5",
        6 => "6",
        7 => "7",
        8 => "8",
        9 => "9",
        10 => "a",
        11 => "b",
        12 => "c",
        13 => "d",
        14 => "e",
        _ => "f",
    };
    proof {
        reveal_strlit("0");
        reveal_strlit("1");
        reveal_strlit("2");
        reveal_strlit("3");
        reveal_strlit("4");
        reveal_strlit("5");
        reveal_strlit("6");
        reveal_strlit("7");
        reveal_strlit("8");
        reveal_strlit("9");
        reveal_strlit("a");
        reveal_strlit("b");
        reveal_strlit("c");
        reveal_strlit("d");
        reveal_strlit("e");
        reveal_strlit("f");
        assert(r@ =~= seq![hex_char(d)]);
    }
    r
}

/// The digits of an address string: the `0x` prefix is optional and is
/// dropped when present.
pub open spec fn strip_hex_prefix(s: Seq<char>) -> Seq<char> {
    if s.len() >= 2 && s[0] == '0' && s[1] == 'x' {
        s.skip(2)
    } else {
        s
    }
}

/// A string parses as an address exactly when, after the optional `0x`
/// prefix, it consists of 40 hexadecimal digits.
pub open spec fn valid_address_chars(s: Seq<char>) -> bool {
    let d = strip_hex_prefix(s);
    d.len() == 40 && forall|i: int| 0 <= i < 40 ==> is_hex_digit(#[trigger] d[i])
}

/// The bytes an address string denotes, two hex digits per byte.
pub open spec fn parsed_bytes(s: Seq<char>) -> Seq<u8> {
    let d = strip_hex_prefix(s);
    Seq::new(20, |i: int| (hex_val(d[2 * i]) * 16 + hex_val(d[2 * i + 1])) as u8)
}

/// Where each byte's two digits sit in the hex rendering.
proof fn lemma_hex_of_bytes_index(bs: Seq<u8>, i: int)
    requires
        0 <= i < bs.len(),
    ensures
        hex_of_bytes(bs)[2 * i] == hex_char(bs[i] / 16),
        hex_of_bytes(bs)[2 * i + 1] == hex_char(bs[i] % 16),
    decreases bs.len(),
{
    lemma_hex_of_bytes_len(bs);
    let bs0 = bs.drop_last();
    lemma_hex_of_bytes_len(bs0);
    if i < bs.len() - 1 {
        lemma_hex_of_bytes_index(bs0, i);
    }
}

/// Hexadecimal digit characters are ASCII.
proof fn lemma_hex_digit_ascii(c: char)
    requires
        is_hex_digit(c),
    ensures
        '\0' <= c <= '\u{7f}',
{
}

/// A valid address string is ASCII throughout.
pub proof fn lemma_valid_address_ascii(s: Seq<char>)
    requires
        valid_address_chars(s),
    ensures
        vstd::utf8::is_ascii_chars(s),
{
    let d = strip_hex_prefix(s);
    assert forall|i: int| 0 <= i < s.len() implies '\0' <= #[trigger] s[i] <= '\u{7f}' by {
        if d =~= s {
            assert(is_hex_digit(d[i]));
            lemma_hex_digit_ascii(d[i]);
        } else {
            if i >= 2 {
                assert(s[i] == d[i - 2]);
                assert(is_hex_digit(d[i - 2]));
                lemma_hex_digit_ascii(d[i - 2]);
            }
        }
    }
}

/// Address round trip: the canonical rendering of an address is a valid
/// address string, and parsing it back yields the very same bytes.
pub proof fn lemma_address_roundtrip(a: Address)
    ensures
        valid_address_chars(address_chars(a)),
        parsed_bytes(address_chars(a)) == a.bytes@,
{
    broadcast use vstd::array::group_array_axioms;

    let s = address_chars(a);
    let h = hex_of_bytes(a.bytes@);
    lemma_hex_of_bytes_len(a.bytes@);
    assert(s[0] == '0' && s[1] == 'x');
    let d = strip_hex_prefix(s);
    assert(d =~= h);
    assert forall|i: int| 0 <= i < 40 implies is_hex_digit(#[trigger] d[i]) by {
        let k = i / 2;
        lemma_hex_of_bytes_index(a.bytes@, k);
        if i % 2 == 0 {
            assert(d[i] == hex_char(a.bytes@[k] / 16));
            lemma_hex_roundtrip(a.bytes@[k] / 16);
        } else {
            assert(d[i] == hex_char(a.bytes@[k] % 16));
            lemma_hex_roundtrip(a.bytes@[k] % 16);
        }
    }
    assert forall|i: int| 0 <= i < 20 implies parsed_bytes(s)[i] == a.bytes@[i] by {
        lemma_hex_of_bytes_index(a.bytes@, i);
        lemma_hex_roundtrip(a.bytes@[i] / 16);
        lemma_hex_roundtrip(a.bytes@[i] % 16);
        assert(hex_val(d[2 * i]) == a.bytes@[i] / 16);
        assert(hex_val(d[2 * i + 1]) == a.bytes@[i] % 16);
    }
    assert(parsed_bytes(s) =~= a.bytes@);
}

/// Renders an address as `0x` followed by 40 lowercase hex digits.
pub fn format_address(address: &Address) -> (r: String)
    ensures
        r@ == address_chars(*address),
        r@.len() == 42,
{
    broadcast use vstd::array::group_array_axioms;

    let mut s = String::new();
    s.append("0x");
    proof {
        reveal_strlit("0x");
        assert(s@ =~= seq!['0', 'x'] + hex_of_bytes(address.bytes@.take(0)));
    }
    let mut i: usize = 0;
    while i < 20
        invariant
            i <= 20,
            s@ == seq!['0', 'x'] + hex_of_bytes(address.bytes@.take(i as int)),
        decreases 20 - i,
    {
        let b = address.bytes[i];
        s.append(hex_char_str(b / 16));
        s.append(hex_char_str(b % 16));
        proof {
            let taken = address.bytes@.take(i + 1);
            assert(taken.drop_last() =~= address.bytes@.take(i as int));
            assert(taken.last() == b);
            assert(s@ =~= seq!['0', 'x'] + hex_of_bytes(taken));
        }
        i += 1;
    }
    proof {
        assert(address.bytes@.take(20) =~= address.bytes@);
        lemma_hex_of_bytes_len(address.bytes@);
    }
    s
}

} // verus!
