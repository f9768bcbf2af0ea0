//! The laws the codec pair obeys: every encoded text decodes back to the
//! exact buffer it came from, under either preset, and encoding touches a
//! purely printable buffer not at all.
use vstd::prelude::*;

use vstd::utf8::is_scalar;

use crate::decode::{
    decode_from,
    decode_unicode,
    hex_digit_value,
    is_hex_digit,
    prepend_bytes,
    scalar_acc_step,
    spec_decode,
    DecodeError,
};
use crate::encode::{ascii_view, encode_byte, is_printable, spec_encode};
use crate::Encoder;

verus! {

/// A decode that succeeds on a suffix succeeds the same way when the text
/// is read from that position within a longer text.
proof fn lemma_decode_shift(a: Seq<u8>, b: Seq<u8>, i: int)
    requires
        0 <= i <= b.len(),
    ensures
        match decode_from(b, i) {
            Ok(r) => decode_from(a + b, a.len() + i) == Ok::<Seq<u8>, DecodeError>(r),
            Err(_) => decode_from(a + b, a.len() + i) is Err,
        },
    decreases b.len() - i, 1int,
{
    let s = a + b;
    let al = a.len() as int;
    if i >= b.len() {
    } else {
        assert(s[al + i] == b[i]);
        if b[i] != 0x5C {
            lemma_decode_shift(a, b, i + 1);
        } else if i + 1 >= b.len() {
        } else {
            assert(s[al + i + 1] == b[i + 1]);
            let e = b[i + 1];
            if e == 0x5C || e == 0x6E || e == 0x74 || e == 0x72 {
                lemma_decode_shift(a, b, i + 2);
            } else if e == 0x78 {
                if i + 2 < b.len() {
                    assert(s[al + i + 2] == b[i + 2]);
                    if is_hex_digit(b[i + 2]) && i + 3 < b.len() {
                        assert(s[al + i + 3] == b[i + 3]);
                        if is_hex_digit(b[i + 3]) {
                            lemma_decode_shift(a, b, i + 4);
                        }
                    }
                }
            } else if e == 0x75 {
                if i + 2 < b.len() {
                    assert(s[al + i + 2] == b[i + 2]);
                    if b[i + 2] == 0x7B {
                        lemma_decode_unicode_shift(a, b, i, i + 3, 0, false);
                    }
                }
            } else {
            }
        }
    }
}

/// The scalar-escape scan shifts with the text it sits in, as the decode
/// of the whole does.
proof fn lemma_decode_unicode_shift(
    a: Seq<u8>,
    b: Seq<u8>,
    start: int,
    j: int,
    acc: u32,
    seen: bool,
)
    requires
        0 <= start,
        start + 3 <= j <= b.len(),
    ensures
        match decode_unicode(b, start, j, acc, seen) {
            Ok(r) => decode_unicode(a + b, a.len() + start, a.len() + j, acc, seen) == Ok::<
                Seq<u8>,
                DecodeError,
            >(r),
            Err(_) => decode_unicode(a + b, a.len() + start, a.len() + j, acc, seen) is Err,
        },
    decreases b.len() - j, 0int,
{
    let s = a + b;
    let al = a.len() as int;
    if j >= b.len() {
    } else {
        assert(s[al + j] == b[j]);
        if is_hex_digit(b[j]) {
            lemma_decode_unicode_shift(
                a,
                b,
                start,
                j + 1,
                scalar_acc_step(acc, hex_digit_value(b[j])),
                true,
            );
        } else if b[j] == 0x7D {
            if seen && is_scalar(acc) {
                lemma_decode_shift(a, b, j + 1);
            }
        } else {
        }
    }
}

/// A hexadecimal digit written by the encoder reads back as its value.
proof fn lemma_hex_digit_round_trip(n: u8)
    requires
        n < 16,
    ensures
        is_hex_digit(crate::encode::hex_char_upper(n)),
        hex_digit_value(crate::encode::hex_char_upper(n)) == n,
{
}

/// Round trip: decoding the encoded text of any byte buffer, under any
/// configuration, yields exactly that buffer.  Decoding does not depend on
/// which preset produced the text, so the standard and the pretty preset
/// decode alike to the same bytes.
pub proof fn lemma_round_trip(enc: Encoder, bs: Seq<u8>)
    ensures
        spec_decode(spec_encode(enc, bs)) == Ok::<Seq<u8>, DecodeError>(bs),
    decreases bs.len(),
{
    if bs.len() == 0 {
        assert(bs =~= Seq::<u8>::empty());
    } else {
        let b0 = bs[0];
        let tail = bs.drop_first();
        let chunk = encode_byte(enc, b0);
        let rest = spec_encode(enc, tail);
        let text = chunk + rest;
        lemma_round_trip(enc, tail);
        lemma_decode_shift(chunk, rest, 0);
        assert(decode_from(text, chunk.len() as int) == Ok::<Seq<u8>, DecodeError>(tail));
        if b0 == 0x5C || (b0 == 0x09 && enc.encode_tab) || (b0 == 0x0A && enc.encode_line_feed)
            || (b0 == 0x0D && enc.encode_cariage) {
            // a two-byte shorthand escape
            assert(text[0] == 0x5C && text[1] == chunk[1]);
            assert(decode_from(text, 0) == prepend_bytes(seq![b0], decode_from(text, 2)));
        } else if b0 == 0x09 || b0 == 0x0A || b0 == 0x0D || is_printable(b0) {
            // a literal byte
            assert(text[0] == b0 && b0 != 0x5C);
            assert(decode_from(text, 0) == prepend_bytes(seq![b0], decode_from(text, 1)));
        } else {
            // a hex escape \xHH
            let h1 = crate::encode::hex_char_upper(b0 / 16);
            let h2 = crate::encode::hex_char_upper(b0 % 16);
            assert(text[0] == 0x5C && text[1] == 0x78 && text[2] == h1 && text[3] == h2);
            lemma_hex_digit_round_trip(b0 / 16);
            lemma_hex_digit_round_trip(b0 % 16);
            assert(hex_digit_value(h1) * 16 + hex_digit_value(h2) == b0);
            assert(decode_from(text, 0) == prepend_bytes(seq![b0], decode_from(text, 4)));
        }
        assert(seq![b0] + tail =~= bs);
    }
}

/// Cross-preset decode: the standard and the pretty encoding of the same
/// buffer decode to the same bytes, the buffer itself, so decoding does not
/// depend on which preset produced the text.
pub proof fn lemma_cross_preset_decode(bs: Seq<u8>)
    ensures
        spec_decode(spec_encode(crate::standard_encoder(), bs)) == Ok::<Seq<u8>, DecodeError>(bs),
        spec_decode(spec_encode(crate::pretty_encoder(), bs)) == Ok::<Seq<u8>, DecodeError>(bs),
        spec_decode(spec_encode(crate::standard_encoder(), bs)) == spec_decode(
            spec_encode(crate::pretty_encoder(), bs),
        ),
{
    lemma_round_trip(crate::standard_encoder(), bs);
    lemma_round_trip(crate::pretty_encoder(), bs);
}

/// Literal passthrough: a buffer of printable ASCII characters free of
/// backslash encodes to itself, under any configuration.
pub proof fn lemma_printable_passthrough(enc: Encoder, bs: Seq<u8>)
    requires
        forall|k: int| 0 <= k < bs.len() ==> is_printable(#[trigger] bs[k]) && bs[k] != 0x5C,
    ensures
        spec_encode(enc, bs) == bs,
    decreases bs.len(),
{
    if bs.len() == 0 {
        assert(spec_encode(enc, bs) =~= bs);
    } else {
        lemma_printable_passthrough(enc, bs.drop_first());
        assert(seq![bs[0]] + bs.drop_first() =~= bs);
    }
}

/// The round trip stated over the encoded string itself: a string holding
/// the characters of an encoded buffer decodes, over its UTF-8 bytes, back
/// to that buffer.
pub proof fn lemma_round_trip_str(enc: Encoder, bs: Seq<u8>, text: Seq<char>)
    requires
        text == ascii_view(spec_encode(enc, bs)),
    ensures
        spec_decode(vstd::utf8::encode_utf8(text)) == Ok::<Seq<u8>, DecodeError>(bs),
{
    crate::encode::lemma_spec_encode_printable(enc, bs);
    crate::encode::lemma_ascii_view_utf8(spec_encode(enc, bs));
    lemma_round_trip(enc, bs);
}

} // verus!
