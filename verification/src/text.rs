//! Small building blocks for rendering: printable-ASCII tests, hexadecimal
//! and decimal digit sequences, and appending character sequences.

use vstd::prelude::*;

verus! {

/// A byte that the encoder may emit verbatim on its fast path: printable
/// ASCII ("graphic", `0x21..=0x7e`) and not a backslash.
pub open spec fn is_plain_byte(b: u8) -> bool {
    0x21 <= b <= 0x7e && b != 0x5c
}

/// Every byte of `s` is plain (see [`is_plain_byte`]).
pub open spec fn all_plain(s: Seq<u8>) -> bool {
    forall|i: int| 0 <= i < s.len() ==> is_plain_byte(#[trigger] s[i])
}

/// The characters of an all-plain byte sequence, one character per byte.
pub open spec fn plain_chars(s: Seq<u8>) -> Seq<char> {
    Seq::new(s.len(), |i: int| s[i] as char)
}

/// An ASCII-graphic character (`0x21..=0x7e`).
pub open spec fn is_graphic_char(c: char) -> bool {
    0x21 <= c as u32 <= 0x7e
}

/// Executable test for [`is_plain_byte`].
pub fn plain_byte(b: u8) -> (r: bool)
    ensures
        r == is_plain_byte(b),
{
    0x21 <= b && b <= 0x7e && b != 0x5c
}

/// Executable test for [`is_graphic_char`].
pub fn graphic_char(c: char) -> (r: bool)
    ensures
        r == is_graphic_char(c),
{
    let u = c as u32;
    0x21 <= u && u <= 0x7e
}

/// A control character: U+0000 through U+001F, or U+007F.
pub open spec fn is_control_char(c: char) -> bool {
    (c as u32) < 0x20 || c as u32 == 0x7f
}

/// No character of `s` is a control character.
pub open spec fn control_free(s: Seq<char>) -> bool {
    forall|i: int| 0 <= i < s.len() ==> !is_control_char(#[trigger] s[i])
}

/// Control-freeness is preserved by concatenation.
pub proof fn lemma_control_free_concat(a: Seq<char>, b: Seq<char>)
    requires
        control_free(a),
        control_free(b),
    ensures
        control_free(a + b),
{
    assert forall|i: int| 0 <= i < (a + b).len() implies !is_control_char(#[trigger] (a + b)[i]) by {
        if i < a.len() {
            assert((a + b)[i] == a[i]);
        } else {
            assert((a + b)[i] == b[i - a.len()]);
        }
    }
}

/// The lowercase hexadecimal digit for a value below 16; for values below
/// ten this is also the decimal digit.
pub open spec fn hex_digit(n: u8) -> char
    recommends
        n < 16,
{
    if n == 0 {
        '0'
    } else if n == 1 {
        '1'
    } else if n == 2 {
        '2'
    } else if n == 3 {
        '3'
    } else if n == 4 {
        '4'
    } else if n == 5 {
        '5'
    } else if n == 6 {
        '6'
    } else if n == 7 {
        '7'
    } else if n == 8 {
        '8'
    } else if n == 9 {
        '9'
    } else if n == 10 {
        'a'
    } else if n == 11 {
        'b'
    } else if n == 12 {
        'c'
    } else if n == 13 {
        'd'
    } else if n == 14 {
        'e'
    } else {
        'f'
    }
}

/// Executable form of [`hex_digit`].
pub fn hex_digit_char(n: u8) -> (r: char)
    requires
        n < 16,
    ensures
        r == hex_digit(n),
{
    if n == 0 {
        '0'
    } else if n == 1 {
        '1'
    } else if n == 2 {
        '2'
    } else if n == 3 {
        '3'
    } else if n == 4 {
        '4'
    } else if n == 5 {
        '5'
    } else if n == 6 {
        '6'
    } else if n == 7 {
        '7'
    } else if n == 8 {
        '8'
    } else if n == 9 {
        '9'
    } else if n == 10 {
        'a'
    } else if n == 11 {
        'b'
    } else if n == 12 {
        'c'
    } else if n == 13 {
        'd'
    } else if n == 14 {
        'e'
    } else {
        'f'
    }
}

/// A digit is never a control character.
pub proof fn lemma_hex_digit_not_control(n: u8)
    ensures
        !is_control_char(hex_digit(n)),
{
}

/// A decimal rendering holds no control character.
pub proof fn lemma_dec_digits_control_free(n: nat)
    ensures
        control_free(dec_digits(n)),
    decreases n,
{
    if n < 10 {
        lemma_hex_digit_not_control(n as u8);
    } else {
        lemma_dec_digits_control_free(n / 10);
        lemma_hex_digit_not_control((n % 10) as u8);
        lemma_control_free_concat(dec_digits(n / 10), seq![hex_digit((n % 10) as u8)]);
    }
}

/// A hexadecimal rendering holds no control character.
pub proof fn lemma_hex_digits_control_free(n: nat)
    ensures
        control_free(hex_digits(n)),
    decreases n,
{
    if n < 16 {
        lemma_hex_digit_not_control(n as u8);
    } else {
        lemma_hex_digits_control_free(n / 16);
        lemma_hex_digit_not_control((n % 16) as u8);
        lemma_control_free_concat(hex_digits(n / 16), seq![hex_digit((n % 16) as u8)]);
    }
}

/// The decimal rendering of `n`, most significant digit first, without
/// leading zeroes (a single `'0'` for zero).
pub open spec fn dec_digits(n: nat) -> Seq<char>
    decreases n,
{
    if n < 10 {
        seq![hex_digit(n as u8)]
    } else {
        dec_digits(n / 10) + seq![hex_digit((n % 10) as u8)]
    }
}

/// The lowercase hexadecimal rendering of `n`, most significant digit
/// first, without leading zeroes (a single `'0'` for zero).
pub open spec fn hex_digits(n: nat) -> Seq<char>
    decreases n,
{
    if n < 16 {
        seq![hex_digit(n as u8)]
    } else {
        hex_digits(n / 16) + seq![hex_digit((n % 16) as u8)]
    }
}

/// Appends the decimal rendering of `n` to `out`.
pub fn push_dec_u16(out: &mut Vec<char>, n: u16)
    ensures
        final(out)@ == old(out)@ + dec_digits(n as nat),
    decreases n,
{
    if n < 10 {
        out.push(hex_digit_char(n as u8));
    } else {
        push_dec_u16(out, n / 10);
        out.push(hex_digit_char((n % 10) as u8));
    }
}

/// Appends the hexadecimal rendering of `n` to `out`.
pub fn push_hex_u16(out: &mut Vec<char>, n: u16)
    ensures
        final(out)@ == old(out)@ + hex_digits(n as nat),
    decreases n,
{
    if n < 16 {
        out.push(hex_digit_char(n as u8));
    } else {
        push_hex_u16(out, n / 16);
        out.push(hex_digit_char((n % 16) as u8));
    }
}

/// Appends all characters of `piece` to `out`, in order.
pub fn push_chars(out: &mut Vec<char>, piece: &Vec<char>)
    ensures
        final(out)@ == old(out)@ + piece@,
{
    let mut i: usize = 0;
    while i < piece.len()
        invariant
            i <= piece.len(),
            out@ == old(out)@ + piece@.take(i as int),
        decreases piece.len() - i,
    {
        out.push(piece[i]);
        i = i + 1;
        assert(piece@.take(i as int) == piece@.take(i as int - 1).push(piece@[i as int - 1]));
    }
    assert(piece@.take(piece@.len() as int) == piece@);
}

/// Copies a byte vector.
pub fn copy_bytes(v: &Vec<u8>) -> (r: Vec<u8>)
    ensures
        r@ == v@,
{
    let mut r: Vec<u8> = Vec::new();
    let mut i: usize = 0;
    while i < v.len()
        invariant
            i <= v@.len(),
            r@ == v@.take(i as int),
        decreases v@.len() - i,
    {
        r.push(v[i]);
        i = i + 1;
        assert(v@.take(i as int) == v@.take(i as int - 1).push(v@[i as int - 1]));
    }
    assert(v@.take(v@.len() as int) == v@);
    r
}

/// Appends the characters of the string slice `s` to `out`.
pub fn push_str_chars(out: &mut Vec<char>, s: &str)
    ensures
        final(out)@ == old(out)@ + s@,
{
    let piece = crate::ext::str_chars(s);
    push_chars(out, &piece);
}

} // verus!
