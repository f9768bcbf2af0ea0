//! STFU8: a reversible textual encoding for arbitrary binary data.
//!
//! Any byte buffer is mapped to a printable string by escaping every
//! non-printable or otherwise unsafe byte, and such a string is mapped back
//! to the exact original bytes.  Encoding is total; decoding reverses the
//! escape grammar and reports the first structural fault it meets.
use vstd::prelude::*;

mod decode;
mod encode;
mod laws;

pub use decode::{decode, decode_bytes, spec_decode, DecodeError};
pub use encode::{ascii_view, encode_byte, encode_with, spec_encode};
pub use laws::{
    lemma_cross_preset_decode,
    lemma_printable_passthrough,
    lemma_round_trip,
    lemma_round_trip_str,
};

verus! {

/// Encode bytes as stfu8 text, escaping all non-printable bytes, tab, line
/// feed and carriage return included.
///
/// The result holds exactly the characters of `spec_encode` under the
/// standard preset, and those characters are its UTF-8 bytes unchanged.
pub fn encode(v: &[u8]) -> (res: String)
    ensures
        res@ == ascii_view(spec_encode(standard_encoder(), v@)),
        vstd::utf8::encode_utf8(res@) == spec_encode(standard_encoder(), v@),
{
    let encoder = Encoder::new();
    encode_with(&encoder, v)
}

/// Encode bytes as stfu8 text, escaping all non-printable bytes except tab,
/// line feed and carriage return, which pass through literally so the text
/// prints prettily.
pub fn encode_pretty(v: &[u8]) -> (res: String)
    ensures
        res@ == ascii_view(spec_encode(pretty_encoder(), v@)),
        vstd::utf8::encode_utf8(res@) == spec_encode(pretty_encoder(), v@),
{
    let encoder = Encoder::pretty();
    encode_with(&encoder, v)
}

/// Settings for encoding binary data.
///
/// The three flags decide whether tab, line feed and carriage return are
/// escaped (`\t`, `\n`, `\r`) or emitted literally.  Every other
/// non-printable byte is always escaped, whatever the flags say.
pub struct Encoder {
    pub encode_tab: bool,  // \t, byte 0x09
    pub encode_line_feed: bool,  // \n, byte 0x0A
    pub encode_cariage: bool,  // \r, byte 0x0D
}

/// The standard preset: tab, line feed and carriage return are all escaped.
pub open spec fn standard_encoder() -> Encoder {
    Encoder { encode_tab: true, encode_line_feed: true, encode_cariage: true }
}

/// The pretty preset: tab, line feed and carriage return pass through
/// literally, so multi-line text stays readable.
pub open spec fn pretty_encoder() -> Encoder {
    Encoder { encode_tab: false, encode_line_feed: false, encode_cariage: false }
}

impl Encoder {
    /// Create a new "non pretty" `Encoder`: all non-printable bytes,
    /// including tab, line feed and carriage return, will be escaped.
    pub fn new() -> (e: Encoder)
        ensures
            e == standard_encoder(),
    {
        Encoder { encode_tab: true, encode_line_feed: true, encode_cariage: true }
    }

    /// Create a "pretty" `Encoder`: tab, line feed and carriage return
    /// will not be escaped.
    pub fn pretty() -> (e: Encoder)
        ensures
            e == pretty_encoder(),
    {
        Encoder { encode_tab: false, encode_line_feed: false, encode_cariage: false }
    }
}

} // verus!
