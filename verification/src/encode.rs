//! The encoder: a total map from bytes to the ASCII bytes of the encoded
//! text, together with its specification.
use vstd::prelude::*;

use crate::Encoder;

verus! {

/// A printable ASCII byte: space through tilde.
pub open spec fn is_printable(b: u8) -> bool {
    0x20 <= b <= 0x7E
}

/// The uppercase hexadecimal digit for a value below sixteen.
pub open spec fn hex_char_upper(n: u8) -> u8
    recommends
        n < 16,
{
    if n < 10 {
        (0x30 + n) as u8  // '0' through '9'
    } else {
        (0x37 + n) as u8  // 'A' through 'F'
    }
}

/// The encoded form of one byte: itself when printable, a shorthand escape
/// for backslash and (depending on the configuration) tab, line feed and
/// carriage return, and a two-digit hex escape `\xHH` for everything else.
pub open spec fn encode_byte(enc: Encoder, b: u8) -> Seq<u8> {
    if b == 0x5C {  // backslash is doubled
        seq![0x5C, 0x5C]
    } else if b == 0x09 {  // tab
        if enc.encode_tab {
            seq![0x5C, 0x74]  // \t
        } else {
            seq![0x09]
        }
    } else if b == 0x0A {  // line feed
        if enc.encode_line_feed {
            seq![0x5C, 0x6E]  // \n
        } else {
            seq![0x0A]
        }
    } else if b == 0x0D {  // carriage return
        if enc.encode_cariage {
            seq![0x5C, 0x72]  // \r
        } else {
            seq![0x0D]
        }
    } else if is_printable(b) {
        seq![b]
    } else {
        seq![0x5C, 0x78, hex_char_upper(b / 16), hex_char_upper(b % 16)]  // \xHH
    }
}

/// The encoded text of a whole buffer, as ASCII bytes: the concatenation of
/// the encoded forms of its bytes, in order.
pub open spec fn spec_encode(enc: Encoder, bs: Seq<u8>) -> Seq<u8>
    decreases bs.len(),
{
    if bs.len() == 0 {
        Seq::empty()
    } else {
        encode_byte(enc, bs[0]) + spec_encode(enc, bs.drop_first())
    }
}

/// ASCII bytes read as the characters they stand for.
pub open spec fn ascii_view(bs: Seq<u8>) -> Seq<char> {
    Seq::new(bs.len(), |i: int| bs[i] as char)
}

/// Appending one byte to the buffer appends that byte's encoded form to the
/// encoded text.
pub proof fn lemma_spec_encode_snoc(enc: Encoder, bs: Seq<u8>, i: int)
    requires
        0 <= i < bs.len(),
    ensures
        spec_encode(enc, bs.take(i + 1)) == spec_encode(enc, bs.take(i)) + encode_byte(enc, bs[i]),
    decreases i,
{
    let pre = bs.take(i + 1);
    if i == 0 {
        assert(pre.drop_first() =~= bs.take(0));
        assert(spec_encode(enc, bs.take(0)) + encode_byte(enc, bs[0]) =~= encode_byte(enc, bs[0])
            + spec_encode(enc, bs.take(0)));
    } else {
        lemma_spec_encode_snoc(enc, bs.drop_first(), i - 1);
        assert(pre.drop_first() =~= bs.drop_first().take(i));
        assert(bs.take(i).drop_first() =~= bs.drop_first().take(i - 1));
        assert(bs.drop_first()[i - 1] == bs[i]);
        assert(spec_encode(enc, bs.take(i + 1)) == encode_byte(enc, bs[0]) + (spec_encode(
            enc,
            bs.drop_first().take(i - 1),
        ) + encode_byte(enc, bs[i])));
        assert(encode_byte(enc, bs[0]) + (spec_encode(enc, bs.drop_first().take(i - 1))
            + encode_byte(enc, bs[i])) =~= (encode_byte(enc, bs[0]) + spec_encode(
            enc,
            bs.drop_first().take(i - 1),
        )) + encode_byte(enc, bs[i]));
    }
}

/// Relies on `String::from_utf8`: a buffer of bytes below 0x80 is valid
/// UTF-8, and converts to the string of exactly those characters.
#[verifier::external_body]
fn string_from_ascii(v: Vec<u8>) -> (r: String)
    requires
        forall|i: int| 0 <= i < v@.len() ==> v@[i] < 0x80,
    ensures
        r@ == ascii_view(v@),
{
    match String::from_utf8(v) {
        Ok(s) => s,
        Err(_) => String::new(),
    }
}

/// One output byte's place in the encoded text: printable ASCII, or one of
/// tab, line feed and carriage return, each only when the configuration
/// passes it through.
pub open spec fn is_output_byte(enc: Encoder, b: u8) -> bool {
    &&& (is_printable(b) || b == 0x09 || b == 0x0A || b == 0x0D)
    &&& (b == 0x09 ==> !enc.encode_tab)
    &&& (b == 0x0A ==> !enc.encode_line_feed)
    &&& (b == 0x0D ==> !enc.encode_cariage)
}

/// Every byte of the encoded text is printable ASCII, except that tab, line
/// feed and carriage return appear literally where the configuration passes
/// them through; under the standard preset the text is free of all three.
pub proof fn lemma_spec_encode_printable(enc: Encoder, bs: Seq<u8>)
    ensures
        forall|k: int|
            0 <= k < spec_encode(enc, bs).len() ==> is_output_byte(
                enc,
                #[trigger] spec_encode(enc, bs)[k],
            ),
    decreases bs.len(),
{
    if bs.len() > 0 {
        lemma_spec_encode_printable(enc, bs.drop_first());
        let chunk = encode_byte(enc, bs[0]);
        let tail = spec_encode(enc, bs.drop_first());
        assert forall|k: int| 0 <= k < spec_encode(enc, bs).len() implies is_output_byte(
            enc,
            #[trigger] spec_encode(enc, bs)[k],
        ) by {
            if k < chunk.len() {
                assert(spec_encode(enc, bs)[k] == chunk[k]);
            } else {
                assert(spec_encode(enc, bs)[k] == tail[k - chunk.len()]);
            }
        }
    }
}

/// ASCII bytes, read as characters, encode in UTF-8 back to the same bytes.
pub proof fn lemma_ascii_view_utf8(bs: Seq<u8>)
    requires
        forall|k: int| 0 <= k < bs.len() ==> bs[k] < 0x80,
    ensures
        vstd::utf8::encode_utf8(ascii_view(bs)) == bs,
{
    let chars = ascii_view(bs);
    assert forall|i: int| 0 <= i < chars.len() implies '\0' <= #[trigger] chars[i] <= '\u{7f}' by {
        assert(bs[i] < 0x80);
        assert(chars[i] as u32 == bs[i]);
    }
    assert(vstd::utf8::is_ascii_chars(chars));
    vstd::utf8::is_ascii_chars_encode_utf8(chars);
    assert(vstd::utf8::encode_utf8(chars) =~= bs);
}

/// Encode a buffer under the given configuration.
pub fn encode_with(enc: &Encoder, v: &[u8]) -> (res: String)
    ensures
        res@ == ascii_view(spec_encode(*enc, v@)),
        vstd::utf8::encode_utf8(res@) == spec_encode(*enc, v@),
{
    let mut out: Vec<u8> = Vec::new();
    let mut i: usize = 0;
    while i < v.len()
        invariant
            i <= v@.len(),
            out@ == spec_encode(*enc, v@.take(i as int)),
        decreases v@.len() - i,
    {
        let b = v[i];
        proof {
            lemma_spec_encode_snoc(*enc, v@, i as int);
        }
        if b == 0x5C {
            out.push(0x5C);
            out.push(0x5C);
        } else if b == 0x09 {
            if enc.encode_tab {
                out.push(0x5C);
                out.push(0x74);
            } else {
                out.push(0x09);
            }
        } else if b == 0x0A {
            if enc.encode_line_feed {
                out.push(0x5C);
                out.push(0x6E);
            } else {
                out.push(0x0A);
            }
        } else if b == 0x0D {
            if enc.encode_cariage {
                out.push(0x5C);
                out.push(0x72);
            } else {
                out.push(0x0D);
            }
        } else if 0x20 <= b && b <= 0x7E {
            out.push(b);
        } else {
            out.push(0x5C);
            out.push(0x78);
            out.push(hex_upper_digit(b / 16));
            out.push(hex_upper_digit(b % 16));
        }
        proof {
            assert(out@ =~= spec_encode(*enc, v@.take(i as int)) + encode_byte(*enc, v@[i as int]));
        }
        i = i + 1;
    }
    proof {
        assert(v@.take(v@.len() as int) =~= v@);
        lemma_spec_encode_printable(*enc, v@);
        lemma_ascii_view_utf8(spec_encode(*enc, v@));
    }
    string_from_ascii(out)
}

/// The uppercase hexadecimal digit of a value below sixteen.
fn hex_upper_digit(n: u8) -> (r: u8)
    requires
        n < 16,
    ensures
        r == hex_char_upper(n),
{
    if n < 10 {
        0x30 + n
    } else {
        0x37 + n
    }
}

} // verus!
