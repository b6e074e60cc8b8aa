//! The safe-token encoder: any byte sequence, printable text or binary
//! garbage, becomes one unambiguous printable token.
//!
//! The grammar: an empty input becomes the literal `""`; an input made only
//! of printable, backslash-free ASCII is emitted verbatim and unquoted;
//! anything else is wrapped in double quotes, valid text runs are escaped
//! character by character (`\` doubled, non-graphic characters by their
//! standard debug escape) and invalid byte runs are emitted as `\xhh` pairs.

use vstd::prelude::*;
use vstd::string::StrSliceExecFns;
use vstd::utf8::is_continuation_byte;
use vstd::utf8::codepoint_width_1;
use vstd::utf8::codepoint_width_2;
use vstd::utf8::codepoint_width_3;
use vstd::utf8::codepoint_width_4;
use vstd::utf8::valid_first_scalar;
use vstd::utf8::decode_first_scalar;
use vstd::utf8::length_of_first_scalar;
use vstd::utf8::pop_first_scalar;
use crate::text::is_plain_byte;
use crate::text::is_control_char;
use crate::text::control_free;
use crate::text::all_plain;
use crate::text::plain_chars;
use crate::text::is_graphic_char;
use crate::text::hex_digit;
use crate::ext::escape_debug_of;

verus! {

/// How one decoded character is rendered inside a quoted token: a backslash
/// is doubled, any other ASCII-graphic character stands for itself, and
/// everything else is rendered by its standard debug escape.
pub open spec fn escape_char(c: char) -> Seq<char> {
    if c == '\\' {
        seq!['\\', '\\']
    } else if is_graphic_char(c) {
        seq![c]
    } else {
        escape_debug_of(c)
    }
}

/// The `\xhh` rendering of one byte, lowercase, two digits.
pub open spec fn hex_escape(b: u8) -> Seq<char> {
    seq!['\\', 'x', hex_digit(b >> 4), hex_digit(b & 0xf)]
}

/// The `\xhh` renderings of a whole byte run.
pub open spec fn hex_run(s: Seq<u8>) -> Seq<char>
    decreases s.len(),
{
    if s.len() == 0 {
        seq![]
    } else {
        hex_escape(s[0]) + hex_run(s.skip(1))
    }
}

/// Whether the second byte of a three-byte sequence led by `b0` is in range.
pub open spec fn valid_second_byte_w3(b0: u8, b1: u8) -> bool {
    if b0 == 0xe0 {
        0xa0 <= b1 <= 0xbf
    } else if b0 == 0xed {
        0x80 <= b1 <= 0x9f
    } else {
        is_continuation_byte(b1)
    }
}

/// Whether the second byte of a four-byte sequence led by `b0` is in range.
pub open spec fn valid_second_byte_w4(b0: u8, b1: u8) -> bool {
    if b0 == 0xf0 {
        0x90 <= b1 <= 0xbf
    } else if b0 == 0xf4 {
        0x80 <= b1 <= 0x8f
    } else {
        is_continuation_byte(b1)
    }
}

/// The length that a decode error at the head of `s` reports: the maximal
/// prefix of `s` that could still have grown into a valid sequence, or
/// `None` when the input ends before the sequence is proven invalid.
pub open spec fn bad_extent(s: Seq<u8>) -> Option<int>
    recommends
        s.len() > 0,
        !valid_first_scalar(s),
{
    let b0 = s[0];
    if 0xc2 <= b0 <= 0xdf {
        if s.len() < 2 {
            None
        } else {
            Some(1int)
        }
    } else if 0xe0 <= b0 <= 0xef {
        if s.len() < 2 {
            None
        } else if !valid_second_byte_w3(b0, s[1]) {
            Some(1int)
        } else if s.len() < 3 {
            None
        } else {
            Some(2int)
        }
    } else if 0xf0 <= b0 <= 0xf4 {
        if s.len() < 2 {
            None
        } else if !valid_second_byte_w4(b0, s[1]) {
            Some(1int)
        } else if s.len() < 3 {
            None
        } else if !is_continuation_byte(s[2]) {
            Some(2int)
        } else if s.len() < 4 {
            None
        } else {
            Some(3int)
        }
    } else {
        Some(1int)
    }
}

/// How many bytes one invalid run at the head of `s` consumes: the reported
/// extent plus the offending byte, clamped to the input, or the whole
/// remainder when the error runs to the end of the input.
pub open spec fn bad_run_len(s: Seq<u8>) -> int
    recommends
        s.len() > 0,
        !valid_first_scalar(s),
{
    match bad_extent(s) {
        None => s.len() as int,
        Some(n) => if n + 1 <= s.len() {
            n + 1
        } else {
            s.len() as int
        },
    }
}

/// The body of a quoted token: alternating valid-text runs, escaped one
/// character at a time, and invalid runs of `\xhh` bytes.
pub open spec fn quoted_body(s: Seq<u8>) -> Seq<char>
    decreases s.len(),
{
    if s.len() == 0 {
        seq![]
    } else if valid_first_scalar(s) {
        escape_char(decode_first_scalar(s) as char) + quoted_body(pop_first_scalar(s))
    } else {
        hex_run(s.take(bad_run_len(s))) + quoted_body(s.skip(bad_run_len(s)))
    }
}

/// The safe token for an arbitrary byte sequence.
pub open spec fn token_of(s: Seq<u8>) -> Seq<char> {
    if s.len() == 0 {
        seq!['"', '"']
    } else if all_plain(s) {
        plain_chars(s)
    } else {
        seq!['"'] + quoted_body(s) + seq!['"']
    }
}

// Bit-level facts tying the positional byte ranges that the scanner checks
// to the codepoint bounds that `valid_first_scalar` asks for.
proof fn bv_cp1(b0: u8)
    by (bit_vector)
    requires
        b0 <= 0x7f,
    ensures
        codepoint_width_1(b0) == b0,
{
}

proof fn bv_cp2(b0: u8, b1: u8)
    by (bit_vector)
    requires
        0xc0 <= b0 <= 0xdf,
        0x80 <= b1 <= 0xbf,
    ensures
        codepoint_width_2(b0, b1) == (((b0 & 0x1f) as u32) << 6) | ((b1 & 0x3f) as u32),
        b0 >= 0xc2 ==> 0x80 <= codepoint_width_2(b0, b1) <= 0x7ff,
        b0 <= 0xc1 ==> codepoint_width_2(b0, b1) < 0x80,
{
}

proof fn bv_cp3(b0: u8, b1: u8, b2: u8)
    by (bit_vector)
    requires
        0xe0 <= b0 <= 0xef,
        0x80 <= b1 <= 0xbf,
        0x80 <= b2 <= 0xbf,
    ensures
        codepoint_width_3(b0, b1, b2) == ((((b0 & 0x0f) as u32) << 12) | (((b1 & 0x3f)
            as u32) << 6)) | ((b2 & 0x3f) as u32),
        valid_second_byte_w3(b0, b1) ==> 0x800 <= codepoint_width_3(b0, b1, b2) <= 0xffff,
        valid_second_byte_w3(b0, b1) ==> !(0xd800 <= codepoint_width_3(b0, b1, b2) <= 0xdfff),
        b0 == 0xe0 && b1 <= 0x9f ==> codepoint_width_3(b0, b1, b2) < 0x800,
        b0 == 0xed && b1 >= 0xa0 ==> 0xd800 <= codepoint_width_3(b0, b1, b2) <= 0xdfff,
{
}

proof fn bv_cp4(b0: u8, b1: u8, b2: u8, b3: u8)
    by (bit_vector)
    requires
        0xf0 <= b0 <= 0xf7,
        0x80 <= b1 <= 0xbf,
        0x80 <= b2 <= 0xbf,
        0x80 <= b3 <= 0xbf,
    ensures
        codepoint_width_4(b0, b1, b2, b3) == (((((b0 & 0x07) as u32) << 18) | (((b1 & 0x3f)
            as u32) << 12)) | (((b2 & 0x3f) as u32) << 6)) | ((b3 & 0x3f) as u32),
        b0 <= 0xf4 && valid_second_byte_w4(b0, b1) ==> 0x10000 <= codepoint_width_4(
            b0, b1, b2, b3) <= 0x10ffff,
        b0 == 0xf0 && b1 <= 0x8f ==> codepoint_width_4(b0, b1, b2, b3) < 0x10000,
        b0 == 0xf4 && b1 >= 0x90 ==> codepoint_width_4(b0, b1, b2, b3) > 0x10ffff,
        b0 >= 0xf5 ==> codepoint_width_4(b0, b1, b2, b3) > 0x10ffff,
{
}

/// One step of the scanner: either a whole scalar was decoded, or the head
/// of the remaining input is one invalid run of `count` bytes.
enum Step {
    Valid { c: char, width: usize },
    Bad { count: usize },
}

/// Decodes one scalar at position `i`, or measures the invalid run there.
fn utf8_step(bytes: &Vec<u8>, i: usize) -> (r: Step)
    requires
        i < bytes@.len(),
    ensures
        ({
            let s = bytes@.skip(i as int);
            match r {
                Step::Valid { c, width } => {
                    &&& valid_first_scalar(s)
                    &&& c == (decode_first_scalar(s) as char)
                    &&& width as int == length_of_first_scalar(s)
                    &&& 1 <= width && i + width <= bytes@.len()
                },
                Step::Bad { count } => {
                    &&& !valid_first_scalar(s)
                    &&& count as int == bad_run_len(s)
                    &&& 1 <= count && i + count <= bytes@.len()
                },
            }
        }),
{
    let ghost s = bytes@.skip(i as int);
    let n = bytes.len();
    let b0 = bytes[i];
    proof {
        assert(s.len() == n - i);
        assert(s[0] == bytes@[i as int]);
    }
    if b0 <= 0x7f {
        let v = (b0 & 0x7f) as u32;
        proof {
            bv_cp1(b0);
            assert(v == b0) by (bit_vector)
                requires
                    v == (b0 & 0x7f) as u32 && b0 <= 0x7f,
            ;
            assert(valid_first_scalar(s));
            assert(decode_first_scalar(s) == v);
        }
        let c = crate::ext::char_from_scalar(v);
        proof {
            vstd::utf8::char_u32_cast(c, v);
        }
        Step::Valid { c, width: 1 }
    } else if 0xc2 <= b0 && b0 <= 0xdf {
        if i + 1 >= n {
            proof {
                assert(!valid_first_scalar(s));
            }
            Step::Bad { count: 1 }
        } else {
            let b1 = bytes[i + 1];
            proof {
                assert(s[1] == bytes@[i as int + 1]);
            }
            if 0x80 <= b1 && b1 <= 0xbf {
                let v = (((b0 & 0x1f) as u32) << 6) | ((b1 & 0x3f) as u32);
                proof {
                    bv_cp2(b0, b1);
                    assert(v == codepoint_width_2(b0, b1));
                    assert(valid_first_scalar(s));
                    assert(decode_first_scalar(s) == v);
                }
                let c = crate::ext::char_from_scalar(v);
                proof {
                    vstd::utf8::char_u32_cast(c, v);
                }
                Step::Valid { c, width: 2 }
            } else {
                proof {
                    assert(!is_continuation_byte(s[1]));
                    assert(!valid_first_scalar(s));
                }
                Step::Bad { count: 2 }
            }
        }
    } else if 0xe0 <= b0 && b0 <= 0xef {
        if i + 1 >= n {
            proof {
                assert(!valid_first_scalar(s));
            }
            Step::Bad { count: 1 }
        } else {
            let b1 = bytes[i + 1];
            proof {
                assert(s[1] == bytes@[i as int + 1]);
            }
            let ok1 = if b0 == 0xe0 {
                0xa0 <= b1 && b1 <= 0xbf
            } else if b0 == 0xed {
                0x80 <= b1 && b1 <= 0x9f
            } else {
                0x80 <= b1 && b1 <= 0xbf
            };
            if !ok1 {
                proof {
                    if s.len() >= 3 && is_continuation_byte(b1) && is_continuation_byte(s[2]) {
                        bv_cp3(b0, b1, s[2]);
                    }
                    assert(!valid_first_scalar(s));
                }
                Step::Bad { count: 2 }
            } else if i + 2 >= n {
                proof {
                    assert(!valid_first_scalar(s));
                }
                Step::Bad { count: (n - i) }
            } else {
                let b2 = bytes[i + 2];
                proof {
                    assert(s[2] == bytes@[i as int + 2]);
                }
                if 0x80 <= b2 && b2 <= 0xbf {
                    let v = ((((b0 & 0x0f) as u32) << 12) | (((b1 & 0x3f) as u32) << 6)) | ((b2
                        & 0x3f) as u32);
                    proof {
                        bv_cp3(b0, b1, b2);
                        assert(v == codepoint_width_3(b0, b1, b2));
                        assert(valid_first_scalar(s));
                        assert(decode_first_scalar(s) == v);
                    }
                    let c = crate::ext::char_from_scalar(v);
                    proof {
                        vstd::utf8::char_u32_cast(c, v);
                    }
                    Step::Valid { c, width: 3 }
                } else {
                    proof {
                        assert(!is_continuation_byte(s[2]));
                        assert(!valid_first_scalar(s));
                    }
                    Step::Bad { count: 3 }
                }
            }
        }
    } else if 0xf0 <= b0 && b0 <= 0xf4 {
        if i + 1 >= n {
            proof {
                assert(!valid_first_scalar(s));
            }
            Step::Bad { count: 1 }
        } else {
            let b1 = bytes[i + 1];
            proof {
                assert(s[1] == bytes@[i as int + 1]);
            }
            let ok1 = if b0 == 0xf0 {
                0x90 <= b1 && b1 <= 0xbf
            } else if b0 == 0xf4 {
                0x80 <= b1 && b1 <= 0x8f
            } else {
                0x80 <= b1 && b1 <= 0xbf
            };
            if !ok1 {
                proof {
                    if s.len() >= 4 && is_continuation_byte(b1) && is_continuation_byte(s[2])
                        && is_continuation_byte(s[3]) {
                        bv_cp4(b0, b1, s[2], s[3]);
                    }
                    assert(!valid_first_scalar(s));
                }
                Step::Bad { count: 2 }
            } else if i + 2 >= n {
                proof {
                    assert(!valid_first_scalar(s));
                }
                Step::Bad { count: (n - i) }
            } else {
                let b2 = bytes[i + 2];
                proof {
                    assert(s[2] == bytes@[i as int + 2]);
                }
                if !(0x80 <= b2 && b2 <= 0xbf) {
                    proof {
                        assert(!is_continuation_byte(s[2]));
                        assert(!valid_first_scalar(s));
                    }
                    Step::Bad { count: 3 }
                } else if i + 3 >= n {
                    proof {
                        assert(!valid_first_scalar(s));
                    }
                    Step::Bad { count: (n - i) }
                } else {
                    let b3 = bytes[i + 3];
                    proof {
                        assert(s[3] == bytes@[i as int + 3]);
                    }
                    if 0x80 <= b3 && b3 <= 0xbf {
                        let v = (((((b0 & 0x07) as u32) << 18) | (((b1 & 0x3f) as u32) << 12)) | (((
                        b2 & 0x3f) as u32) << 6)) | ((b3 & 0x3f) as u32);
                        proof {
                            bv_cp4(b0, b1, b2, b3);
                            assert(v == codepoint_width_4(b0, b1, b2, b3));
                            assert(valid_first_scalar(s));
                            assert(decode_first_scalar(s) == v);
                        }
                        let c = crate::ext::char_from_scalar(v);
                        proof {
                            vstd::utf8::char_u32_cast(c, v);
                        }
                        Step::Valid { c, width: 4 }
                    } else {
                        proof {
                            assert(!is_continuation_byte(s[3]));
                            assert(!valid_first_scalar(s));
                        }
                        Step::Bad { count: 4 }
                    }
                }
            }
        }
    } else {
        // 0x80..=0xc1 and 0xf5..=0xff: never the lead of a valid sequence
        proof {
            if 0xc0 <= b0 <= 0xc1 && s.len() >= 2 && is_continuation_byte(s[1]) {
                bv_cp2(b0, s[1]);
            }
            if 0xf5 <= b0 <= 0xf7 && s.len() >= 4 && is_continuation_byte(s[1])
                && is_continuation_byte(s[2]) && is_continuation_byte(s[3]) {
                bv_cp4(b0, s[1], s[2], s[3]);
            }
            assert(!valid_first_scalar(s));
        }
        if n - i >= 2 {
            Step::Bad { count: 2 }
        } else {
            Step::Bad { count: 1 }
        }
    }
}

/// A byte sequence waiting to be rendered as a safe token.
pub struct Escaped {
    bytes: Vec<u8>,
}

impl View for Escaped {
    type V = Seq<u8>;

    closed spec fn view(&self) -> Seq<u8> {
        self.bytes@
    }
}

impl Escaped {
    /// Wraps raw bytes.
    pub fn from_bytes(bytes: Vec<u8>) -> (r: Escaped)
        ensures
            r@ == bytes@,
    {
        Escaped { bytes }
    }

    /// Wraps the bytes of a text value.
    pub fn from_text(s: &str) -> (r: Escaped)
        ensures
            r@ == vstd::utf8::encode_utf8(s@),
    {
        Escaped { bytes: s.as_bytes_vec() }
    }

    /// Renders the safe token, character by character. The token never
    /// holds a control character: that is the Safe Token invariant, and with
    /// quoting and escaping it is what makes the token one printable,
    /// unambiguous unit.
    pub fn token_chars(&self) -> (r: Vec<char>)
        ensures
            r@ == token_of(self@),
            control_free(r@),
    {
        let n = self.bytes.len();
        let mut out: Vec<char> = Vec::new();
        if n == 0 {
            out.push('"');
            out.push('"');
            proof {
                assert(out@ =~= token_of(self@));
            }
            return out;
        }
        if all_plain_check(&self.bytes) {
            let mut i: usize = 0;
            while i < n
                invariant
                    n == self.bytes@.len(),
                    all_plain(self.bytes@),
                    i <= n,
                    out@.len() == i,
                    forall|j: int| 0 <= j < i ==> out@[j] == (self.bytes@[j] as char),
                    control_free(out@),
                decreases n - i,
            {
                let b = self.bytes[i];
                proof {
                    assert(is_plain_byte(self.bytes@[i as int]));
                    assert(!is_control_char(b as char));
                }
                out.push(b as char);
                i = i + 1;
            }
            proof {
                assert(out@ =~= plain_chars(self.bytes@));
            }
            return out;
        }
        out.push('"');
        let ghost s = self.bytes@;
        proof {
            assert(out@ =~= seq!['"']);
            assert(s.skip(0) =~= s);
            assert(out@ + quoted_body(s.skip(0)) =~= seq!['"'] + quoted_body(s));
        }
        let mut i: usize = 0;
        while i < n
            invariant
                n == s.len(),
                s == self.bytes@,
                i <= n,
                out@ + quoted_body(s.skip(i as int)) == seq!['"'] + quoted_body(s),
                control_free(out@),
            decreases n - i,
        {
            let step = utf8_step(&self.bytes, i);
            let ghost rem = s.skip(i as int);
            match step {
                Step::Valid { c, width } => {
                    proof {
                        assert(pop_first_scalar(rem) =~= s.skip(i as int + width as int));
                        assert(quoted_body(rem) == escape_char(c) + quoted_body(
                            s.skip(i as int + width as int)));
                    }
                    let ghost out0 = out@;
                    if c == '\\' {
                        out.push('\\');
                        out.push('\\');
                    } else if crate::text::graphic_char(c) {
                        out.push(c);
                    } else {
                        let e = crate::ext::escape_debug_chars(c);
                        proof {
                            crate::text::lemma_control_free_concat(out@, e@);
                        }
                        crate::text::push_chars(&mut out, &e);
                    }
                    proof {
                        assert(out@ =~= out0 + escape_char(c));
                        assert(control_free(out@));
                        assert(out@ + quoted_body(s.skip(i as int + width as int)) =~= seq!['"']
                            + quoted_body(s));
                    }
                    i = i + width;
                }
                Step::Bad { count } => {
                    proof {
                        assert(rem.take(bad_run_len(rem)) =~= s.subrange(
                            i as int, i as int + count as int));
                        assert(rem.skip(bad_run_len(rem)) =~= s.skip(i as int + count as int));
                        assert(quoted_body(rem) == hex_run(s.subrange(
                            i as int, i as int + count as int)) + quoted_body(
                            s.skip(i as int + count as int)));
                    }
                    let mut j: usize = 0;
                    while j < count
                        invariant
                            n == s.len(),
                            s == self.bytes@,
                            i + count <= n,
                            j <= count,
                            out@ + hex_run(s.subrange(i as int + j as int, i as int + count as int))
                                + quoted_body(s.skip(i as int + count as int)) == seq!['"']
                                + quoted_body(s),
                            control_free(out@),
                        decreases count - j,
                    {
                        let b = self.bytes[i + j];
                        let ghost mid = s.subrange(i as int + j as int, i as int + count as int);
                        proof {
                            assert(mid[0] == b);
                            assert(mid.skip(1) =~= s.subrange(
                                i as int + j as int + 1, i as int + count as int));
                            assert(hex_run(mid) == hex_escape(b) + hex_run(mid.skip(1)));
                            assert((b >> 4) < 16 && (b & 0xf) < 16) by (bit_vector);
                            crate::text::lemma_hex_digit_not_control(b >> 4);
                            crate::text::lemma_hex_digit_not_control(b & 0xf);
                        }
                        let ghost out0 = out@;
                        out.push('\\');
                        out.push('x');
                        out.push(crate::text::hex_digit_char(b >> 4));
                        out.push(crate::text::hex_digit_char(b & 0xf));
                        proof {
                            assert(out@ =~= out0 + hex_escape(b));
                            assert(out@ + hex_run(mid.skip(1)) + quoted_body(
                                s.skip(i as int + count as int)) =~= seq!['"'] + quoted_body(s));
                        }
                        j = j + 1;
                    }
                    proof {
                        assert(s.subrange(i as int + count as int, i as int + count as int)
                            =~= Seq::<u8>::empty());
                        assert(hex_run(Seq::<u8>::empty()) == Seq::<char>::empty());
                        assert(out@ + quoted_body(s.skip(i as int + count as int)) =~= seq!['"']
                            + quoted_body(s));
                    }
                    i = i + count;
                }
            }
        }
        proof {
            assert(s.skip(n as int) =~= Seq::<u8>::empty());
            assert(quoted_body(Seq::<u8>::empty()) == Seq::<char>::empty());
        }
        out.push('"');
        proof {
            assert(out@ =~= seq!['"'] + quoted_body(s) + seq!['"']);
        }
        out
    }

    /// Renders the safe token as a string. The token never holds a control
    /// character (the Safe Token invariant).
    pub fn token(&self) -> (r: String)
        ensures
            r@ == token_of(self@),
            control_free(r@),
    {
        let chars = self.token_chars();
        crate::ext::chars_to_string(&chars)
    }
}

/// Law: the empty input renders as the literal empty-quote token.
pub proof fn lemma_empty_token()
    ensures
        token_of(Seq::<u8>::empty()) == seq!['"', '"'],
{
}

/// Law: input made only of printable, backslash-free ASCII renders as
/// itself, one character per byte, unquoted.
pub proof fn lemma_plain_token(s: Seq<u8>)
    requires
        s.len() > 0,
        all_plain(s),
    ensures
        token_of(s) == plain_chars(s),
{
}

/// The characters of a text run, escaped one after the other.
pub open spec fn escape_all(cs: Seq<char>) -> Seq<char>
    decreases cs.len(),
{
    if cs.len() == 0 {
        seq![]
    } else {
        escape_char(cs[0]) + escape_all(cs.drop_first())
    }
}

proof fn lemma_body_of_text(cs: Seq<char>)
    ensures
        quoted_body(vstd::utf8::encode_utf8(cs)) == escape_all(cs),
    decreases cs.len(),
{
    let bytes = vstd::utf8::encode_utf8(cs);
    if cs.len() == 0 {
        assert(bytes.len() == 0);
    } else {
        vstd::utf8::encode_utf8_first_scalar(cs);
        vstd::utf8::char_u32_cast(cs[0], decode_first_scalar(bytes));
        assert(pop_first_scalar(bytes) =~= vstd::utf8::encode_utf8(cs.drop_first()));
        lemma_body_of_text(cs.drop_first());
    }
}

/// Law: valid text whose encoding needs quoting renders quoted, each of its
/// characters escaped by the fixed per-character rule: a backslash doubled,
/// any other graphic character verbatim, anything else debug-escaped.
pub proof fn lemma_text_token(cs: Seq<char>)
    requires
        cs.len() > 0,
        !all_plain(vstd::utf8::encode_utf8(cs)),
    ensures
        token_of(vstd::utf8::encode_utf8(cs)) == seq!['"'] + escape_all(cs) + seq!['"'],
{
    vstd::utf8::encode_utf8_first_scalar(cs);
    lemma_body_of_text(cs);
}

/// Law: every byte sequence has a token, and whenever the input is not one
/// plain printable run the token starts and ends with a quote.
pub proof fn lemma_token_shape(s: Seq<u8>)
    ensures
        token_of(s).len() >= 1,
        s.len() == 0 || !all_plain(s) ==> token_of(s).first() == '"' && token_of(s).last() == '"',
{
    if s.len() == 0 {
    } else if all_plain(s) {
    } else {
        let t = token_of(s);
        assert(t == seq!['"'] + quoted_body(s) + seq!['"']);
        assert(t.last() == '"');
    }
}

/// Whether every byte of the input is plain printable ASCII.
fn all_plain_check(bytes: &Vec<u8>) -> (r: bool)
    ensures
        r == all_plain(bytes@),
{
    let mut i: usize = 0;
    while i < bytes.len()
        invariant
            i <= bytes@.len(),
            forall|j: int| 0 <= j < i ==> is_plain_byte(#[trigger] bytes@[j]),
        decreases bytes@.len() - i,
    {
        if !crate::text::plain_byte(bytes[i]) {
            return false;
        }
        i = i + 1;
    }
    true
}

} // verus!
