//! The decoder: reverses the escape grammar over the UTF-8 bytes of the
//! input text, or reports the first structural fault it meets.
use vstd::prelude::*;

use vstd::string::StringSliceAdditionalSpecFns;
use vstd::utf8::{encode_scalar, is_scalar};

verus! {

/// Why a string could not be decoded.  Offsets count bytes of the input
/// text's UTF-8 form; `found` is the byte met at that offset.
#[derive(Debug, Clone, Copy, PartialEq, Eq)]
pub enum DecodeError {
    /// A byte expected to be a hexadecimal digit inside `\x..` or `\u{..}`
    /// is not one.
    InvalidHexDigit { found: u8, offset: usize },
    /// The input ends before an escape sequence completes: a bare trailing
    /// backslash, or missing hex digits after `\x`.
    TruncatedEscape { offset: usize },
    /// A `\u{` was opened but the input ends before its closing brace.
    UnterminatedBrace { offset: usize },
    /// The hex digits inside `\u{..}` name a value that is not a valid
    /// Unicode scalar.
    ScalarOutOfRange { offset: usize },
    /// The byte after a backslash is not one of the recognized escape
    /// characters, or a `\u` is not followed by an opening brace.
    UnknownEscape { found: u8, offset: usize },
}

/// A hexadecimal digit, either case.
pub open spec fn is_hex_digit(b: u8) -> bool {
    (0x30 <= b <= 0x39) || (0x61 <= b <= 0x66) || (0x41 <= b <= 0x46)
}

/// The value of a hexadecimal digit.
pub open spec fn hex_digit_value(b: u8) -> u32
    recommends
        is_hex_digit(b),
{
    if 0x30 <= b <= 0x39 {
        (b - 0x30) as u32
    } else if 0x61 <= b <= 0x66 {
        (b - 0x61 + 10) as u32
    } else {
        (b - 0x41 + 10) as u32
    }
}

/// One more digit folded into a scalar value under parse, saturated just
/// above the scalar range so an oversized value stays detectable.
pub open spec fn scalar_acc_step(acc: u32, d: u32) -> u32
    recommends
        acc <= 0x110000,
        d < 16,
{
    if acc * 16 + d > 0x10FFFF {
        0x110000u32
    } else {
        (acc * 16 + d) as u32
    }
}

/// The given bytes, put in front of the payload of a decode outcome.
pub open spec fn prepend_bytes(pre: Seq<u8>, r: Result<Seq<u8>, DecodeError>) -> Result<
    Seq<u8>,
    DecodeError,
> {
    match r {
        Ok(v) => Ok(pre + v),
        Err(e) => Err(e),
    }
}

/// The decoded bytes of the input from position `i` on, or the first fault.
///
/// A non-backslash byte is copied through; a backslash starts an escape:
/// one of the shorthands `\\`, `\n`, `\t`, `\r`, a two-digit hex byte
/// escape `\xHH`, or a Unicode scalar escape `\u{H..H}` whose scalar is
/// copied out as its UTF-8 bytes.
pub open spec fn decode_from(s: Seq<u8>, i: int) -> Result<Seq<u8>, DecodeError>
    recommends
        0 <= i <= s.len(),
    decreases s.len() - i, 1int,
{
    if i >= s.len() {
        Ok(Seq::empty())
    } else if s[i] != 0x5C {
        prepend_bytes(seq![s[i]], decode_from(s, i + 1))
    } else if i + 1 >= s.len() {
        Err(DecodeError::TruncatedEscape { offset: i as usize })
    } else if s[i + 1] == 0x5C {
        prepend_bytes(seq![0x5Cu8], decode_from(s, i + 2))
    } else if s[i + 1] == 0x6E {  // \n
        prepend_bytes(seq![0x0Au8], decode_from(s, i + 2))
    } else if s[i + 1] == 0x74 {  // \t
        prepend_bytes(seq![0x09u8], decode_from(s, i + 2))
    } else if s[i + 1] == 0x72 {  // \r
        prepend_bytes(seq![0x0Du8], decode_from(s, i + 2))
    } else if s[i + 1] == 0x78 {  // \xHH
        if i + 2 >= s.len() {
            Err(DecodeError::TruncatedEscape { offset: i as usize })
        } else if !is_hex_digit(s[i + 2]) {
            Err(DecodeError::InvalidHexDigit { found: s[i + 2], offset: (i + 2) as usize })
        } else if i + 3 >= s.len() {
            Err(DecodeError::TruncatedEscape { offset: i as usize })
        } else if !is_hex_digit(s[i + 3]) {
            Err(DecodeError::InvalidHexDigit { found: s[i + 3], offset: (i + 3) as usize })
        } else {
            let b = (hex_digit_value(s[i + 2]) * 16 + hex_digit_value(s[i + 3])) as u8;
            prepend_bytes(seq![b], decode_from(s, i + 4))
        }
    } else if s[i + 1] == 0x75 {  // \u{H..H}
        if i + 2 >= s.len() {
            Err(DecodeError::TruncatedEscape { offset: i as usize })
        } else if s[i + 2] != 0x7B {
            Err(DecodeError::UnknownEscape { found: s[i + 2], offset: (i + 2) as usize })
        } else {
            decode_unicode(s, i, i + 3, 0, false)
        }
    } else {
        Err(DecodeError::UnknownEscape { found: s[i + 1], offset: (i + 1) as usize })
    }
}

/// The rest of a `\u{` escape that begins at `start`, with `j` just past
/// the digits read so far, their saturated value `acc`, and `seen` saying
/// whether at least one digit was read.
pub open spec fn decode_unicode(
    s: Seq<u8>,
    start: int,
    j: int,
    acc: u32,
    seen: bool,
) -> Result<Seq<u8>, DecodeError>
    recommends
        0 <= start,
        start + 3 <= j <= s.len(),
        acc <= 0x110000,
    decreases s.len() - j, 0int,
{
    if j >= s.len() {
        Err(DecodeError::UnterminatedBrace { offset: start as usize })
    } else if is_hex_digit(s[j]) {
        decode_unicode(s, start, j + 1, scalar_acc_step(acc, hex_digit_value(s[j])), true)
    } else if s[j] == 0x7D {  // }
        if !seen {
            Err(DecodeError::InvalidHexDigit { found: 0x7Du8, offset: j as usize })
        } else if !is_scalar(acc) {
            Err(DecodeError::ScalarOutOfRange { offset: start as usize })
        } else {
            prepend_bytes(encode_scalar(acc), decode_from(s, j + 1))
        }
    } else {
        Err(DecodeError::InvalidHexDigit { found: s[j], offset: j as usize })
    }
}

/// The decoded bytes of a whole encoded text, or the first fault.
pub open spec fn spec_decode(s: Seq<u8>) -> Result<Seq<u8>, DecodeError> {
    decode_from(s, 0)
}

/// A hexadecimal digit, either case.
fn is_hex(b: u8) -> (r: bool)
    ensures
        r == is_hex_digit(b),
{
    (0x30 <= b && b <= 0x39) || (0x61 <= b && b <= 0x66) || (0x41 <= b && b <= 0x46)
}

/// The value of a hexadecimal digit.
fn hex_value(b: u8) -> (r: u32)
    requires
        is_hex_digit(b),
    ensures
        r == hex_digit_value(b),
{
    if 0x30 <= b && b <= 0x39 {
        (b - 0x30) as u32
    } else if 0x61 <= b && b <= 0x66 {
        (b - 0x61) as u32 + 10
    } else {
        (b - 0x41) as u32 + 10
    }
}

/// The UTF-8 bytes of a Unicode scalar value.
fn encode_scalar_exec(v: u32) -> (r: Vec<u8>)
    requires
        is_scalar(v),
    ensures
        r@ == encode_scalar(v),
{
    let mut r: Vec<u8> = Vec::new();
    if v <= 0x7F {
        r.push((v & 0x7F) as u8);
    } else if v <= 0x7FF {
        r.push(0xC0u8 | ((v >> 6) & 0x1F) as u8);
        r.push(0x80u8 | (v & 0x3F) as u8);
    } else if v <= 0xFFFF {
        r.push(0xE0u8 | ((v >> 12) & 0x0F) as u8);
        r.push(0x80u8 | ((v >> 6) & 0x3F) as u8);
        r.push(0x80u8 | (v & 0x3F) as u8);
    } else {
        r.push(0xF0u8 | ((v >> 18) & 0x7) as u8);
        r.push(0x80u8 | ((v >> 12) & 0x3F) as u8);
        r.push(0x80u8 | ((v >> 6) & 0x3F) as u8);
        r.push(0x80u8 | (v & 0x3F) as u8);
    }
    proof {
        assert(r@ =~= encode_scalar(v));
    }
    r
}

/// What the main scan keeps true: the decode of the whole input equals the
/// bytes already produced, followed by the decode of what is left.
pub open spec fn scan_continues(t: Seq<u8>, i: int, out: Seq<u8>) -> bool {
    decode_from(t, 0) == prepend_bytes(out, decode_from(t, i))
}

/// One consumed token extends the produced bytes and moves the scan on.
proof fn lemma_scan_step(t: Seq<u8>, i: int, out: Seq<u8>, chunk: Seq<u8>, k: int)
    requires
        scan_continues(t, i, out),
        decode_from(t, i) == prepend_bytes(chunk, decode_from(t, k)),
    ensures
        scan_continues(t, k, out + chunk),
{
    match decode_from(t, k) {
        Ok(r) => {
            assert(out + (chunk + r) =~= (out + chunk) + r);
        },
        Err(_) => {},
    }
}

/// Decode stfu8 text back to the bytes it encodes.
///
/// The input is scanned over its UTF-8 bytes.  The result is `Ok` exactly
/// when `spec_decode` accepts those bytes, and carries the same bytes; a
/// fault is returned as the same error value `spec_decode` names.
pub fn decode(s: &str) -> (res: Result<Vec<u8>, DecodeError>)
    ensures
        match res {
            Ok(v) => spec_decode(s.spec_bytes()) == Ok::<Seq<u8>, DecodeError>(v@),
            Err(e) => spec_decode(s.spec_bytes()) == Err::<Seq<u8>, DecodeError>(e),
        },
{
    decode_bytes(s.as_bytes())
}

/// Decode over the raw bytes of the encoded text.
pub fn decode_bytes(t: &[u8]) -> (res: Result<Vec<u8>, DecodeError>)
    ensures
        match res {
            Ok(v) => spec_decode(t@) == Ok::<Seq<u8>, DecodeError>(v@),
            Err(e) => spec_decode(t@) == Err::<Seq<u8>, DecodeError>(e),
        },
{
    let n = t.len();
    let mut out: Vec<u8> = Vec::new();
    let mut i: usize = 0;
    proof {
        match decode_from(t@, 0) {
            Ok(v) => {
                assert(Seq::<u8>::empty() + v =~= v);
            },
            Err(_) => {},
        }
    }
    while i < n
        invariant
            i <= n,
            n == t@.len(),
            scan_continues(t@, i as int, out@),
        decreases n - i,
    {
        let b = t[i];
        if b != 0x5C {
            proof {
                lemma_scan_step(t@, i as int, out@, seq![b], i + 1);
            }
            let ghost out_old = out@;
            out.push(b);
            proof {
                assert(out@ =~= out_old + seq![b]);
            }
            i = i + 1;
        } else if i + 1 >= n {
            proof {
                assert(decode_from(t@, i as int) == Err::<Seq<u8>, DecodeError>(
                    DecodeError::TruncatedEscape { offset: i },
                ));
            }
            return Err(DecodeError::TruncatedEscape { offset: i });
        } else {
            let e = t[i + 1];
            if e == 0x5C || e == 0x6E || e == 0x74 || e == 0x72 {
                let decoded: u8 = if e == 0x5C {
                    0x5C
                } else if e == 0x6E {
                    0x0A
                } else if e == 0x74 {
                    0x09
                } else {
                    0x0D
                };
                proof {
                    lemma_scan_step(t@, i as int, out@, seq![decoded], i + 2);
                }
                let ghost out_old = out@;
                out.push(decoded);
                proof {
                    assert(out@ =~= out_old + seq![decoded]);
                }
                i = i + 2;
            } else if e == 0x78 {
                if i + 2 >= n {
                    return Err(DecodeError::TruncatedEscape { offset: i });
                }
                let h1 = t[i + 2];
                if !is_hex(h1) {
                    return Err(DecodeError::InvalidHexDigit { found: h1, offset: i + 2 });
                }
                if i + 3 >= n {
                    return Err(DecodeError::TruncatedEscape { offset: i });
                }
                let h2 = t[i + 3];
                if !is_hex(h2) {
                    return Err(DecodeError::InvalidHexDigit { found: h2, offset: i + 3 });
                }
                let decoded: u8 = (hex_value(h1) * 16 + hex_value(h2)) as u8;
                proof {
                    lemma_scan_step(t@, i as int, out@, seq![decoded], i + 4);
                }
                let ghost out_old = out@;
                out.push(decoded);
                proof {
                    assert(out@ =~= out_old + seq![decoded]);
                }
                i = i + 4;
            } else if e == 0x75 {
                if i + 2 >= n {
                    return Err(DecodeError::TruncatedEscape { offset: i });
                }
                if t[i + 2] != 0x7B {
                    return Err(DecodeError::UnknownEscape { found: t[i + 2], offset: i + 2 });
                }
                let mut j: usize = i + 3;
                let mut acc: u32 = 0;
                let mut seen: bool = false;
                while j < n && is_hex(t[j])
                    invariant
                        i + 3 <= j <= n,
                        n == t@.len(),
                        acc <= 0x110000,
                        decode_unicode(t@, i as int, i + 3, 0, false) == decode_unicode(
                            t@,
                            i as int,
                            j as int,
                            acc,
                            seen,
                        ),
                    decreases n - j,
                {
                    let d = hex_value(t[j]);
                    let next: u32 = if acc * 16 + d > 0x10FFFF {
                        0x110000
                    } else {
                        acc * 16 + d
                    };
                    proof {
                        assert(next == scalar_acc_step(acc, hex_digit_value(t@[j as int])));
                    }
                    acc = next;
                    seen = true;
                    j = j + 1;
                }
                if j >= n {
                    proof {
                        assert(decode_unicode(t@, i as int, j as int, acc, seen)
                            == Err::<Seq<u8>, DecodeError>(DecodeError::UnterminatedBrace {
                            offset: i,
                        }));
                    }
                    return Err(DecodeError::UnterminatedBrace { offset: i });
                }
                let c = t[j];
                if c != 0x7D {
                    return Err(DecodeError::InvalidHexDigit { found: c, offset: j });
                }
                if !seen {
                    return Err(DecodeError::InvalidHexDigit { found: 0x7D, offset: j });
                }
                if acc > 0x10FFFF || (0xD800 <= acc && acc <= 0xDFFF) {
                    return Err(DecodeError::ScalarOutOfRange { offset: i });
                }
                let chunk = encode_scalar_exec(acc);
                proof {
                    lemma_scan_step(t@, i as int, out@, chunk@, j + 1);
                }
                let mut k: usize = 0;
                let ghost out_before = out@;
                while k < chunk.len()
                    invariant
                        k <= chunk@.len(),
                        out@ == out_before + chunk@.take(k as int),
                    decreases chunk@.len() - k,
                {
                    out.push(chunk[k]);
                    proof {
                        assert(out_before + chunk@.take(k + 1) =~= (out_before + chunk@.take(
                            k as int,
                        )).push(chunk@[k as int]));
                    }
                    k = k + 1;
                }
                proof {
                    assert(out@ =~= out_before + chunk@);
                }
                i = j + 1;
            } else {
                return Err(DecodeError::UnknownEscape { found: e, offset: i + 1 });
            }
        }
    }
    proof {
        assert(decode_from(t@, n as int) == Ok::<Seq<u8>, DecodeError>(Seq::empty()));
        assert(out@ + Seq::<u8>::empty() =~= out@);
    }
    Ok(out)
}

} // verus!
