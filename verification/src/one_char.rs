//! The single-character argument: a raw command-line token validated to hold
//! exactly one Unicode scalar value.
//!
//! The unit of validation is the Unicode scalar value, not the user-perceived
//! character (grapheme cluster): a base letter followed by a combining mark,
//! or an emoji sequence, decodes to several scalar values and is rejected as
//! [`OneCharError::TooManyCharacters`] even where it renders as one glyph.

use vstd::prelude::*;
use vstd::utf8::*;

verus! {

/// Why a raw token was rejected by the single-character validator.
#[derive(Clone, Copy, Debug, PartialEq, Eq, Structural)]
pub enum OneCharError {
    /// The token holds no scalar value at all (the empty string).
    EmptyInput,
    /// The token decodes to two or more scalar values; the payload is the
    /// exact number of scalar values found.
    TooManyCharacters(usize),
    /// The token is not a valid UTF-8 encoding of any scalar sequence.
    InvalidEncoding,
}

/// A single Unicode scalar value parsed from one raw command-line token.
#[derive(Clone, Copy, Debug, PartialEq, Eq, Structural)]
pub struct OneChar(pub char);

/// What validating a raw token yields: the sole scalar value the token
/// encodes, or the error that describes it exactly.
pub open spec fn spec_one_char(bytes: Seq<u8>) -> Result<char, OneCharError> {
    if !valid_utf8(bytes) {
        Err(OneCharError::InvalidEncoding)
    } else if bytes.len() == 0 {
        Err(OneCharError::EmptyInput)
    } else if decode_utf8(bytes).len() == 1 {
        Ok(decode_utf8(bytes)[0])
    } else {
        Err(OneCharError::TooManyCharacters(decode_utf8(bytes).len() as usize))
    }
}

/// Relies on `char::from_u32` of std: it returns `Some` exactly for the
/// values below `0x110000` that are outside the surrogate range, and the
/// returned `char` has the given scalar value.
pub assume_specification[ char::from_u32 ](i: u32) -> (r: Option<char>)
    ensures
        r is Some <==> is_scalar(i),
        r matches Some(c) ==> c as u32 == i,
;

/// Decode the UTF-8 scalar value starting at byte `i`, or report that no
/// well-formed scalar encoding starts there.
fn decode_scalar_at(bytes: &Vec<u8>, i: usize) -> (r: Option<(u32, usize)>)
    requires
        i < bytes@.len(),
    ensures
        ({
            let suffix = bytes@.subrange(i as int, bytes@.len() as int);
            match r {
                Some(p) => {
                    &&& valid_first_scalar(suffix)
                    &&& p.0 == decode_first_scalar(suffix)
                    &&& p.1 == length_of_first_scalar(suffix)
                    &&& is_scalar(p.0)
                    &&& 1 <= p.1 <= 4
                    &&& i + p.1 <= bytes@.len()
                },
                None => !valid_first_scalar(suffix),
            }
        }),
{
    let n = bytes.len();
    let b0 = bytes[i];
    if b0 <= 0x7f {
        proof {
            assert(b0 <= 0x7f ==> (b0 & 0x7f) as u32 == b0 as u32) by (bit_vector);
        }
        Some((b0 as u32, 1))
    } else if b0 < 0xc0 {
        // A continuation byte cannot lead a scalar encoding.
        None
    } else if b0 <= 0xdf {
        if n - i < 2 {
            return None;
        }
        let b1 = bytes[i + 1];
        if !(0x80 <= b1 && b1 <= 0xbf) {
            return None;
        }
        let code: u32 = (((b0 & 0x1f) as u32) << 6u32) | ((b1 & 0x3f) as u32);
        if code < 0x80 {
            // Overlong two-byte encoding.
            return None;
        }
        proof {
            assert((((b0 & 0x1f) as u32) << 6u32) | ((b1 & 0x3f) as u32) <= 0x7ff)
                by (bit_vector);
        }
        Some((code, 2))
    } else if b0 <= 0xef {
        if n - i < 3 {
            return None;
        }
        let b1 = bytes[i + 1];
        let b2 = bytes[i + 2];
        if !(0x80 <= b1 && b1 <= 0xbf) || !(0x80 <= b2 && b2 <= 0xbf) {
            return None;
        }
        let code: u32 = (((b0 & 0x0f) as u32) << 12u32) | (((b1 & 0x3f) as u32) << 6u32) | ((b2
            & 0x3f) as u32);
        if code < 0x800 {
            // Overlong three-byte encoding.
            return None;
        }
        if 0xd800 <= code && code <= 0xdfff {
            // Surrogate codepoints are not scalar values.
            return None;
        }
        proof {
            assert((((b0 & 0x0f) as u32) << 12u32) | (((b1 & 0x3f) as u32) << 6u32) | ((b2
                & 0x3f) as u32) <= 0xffff) by (bit_vector);
        }
        Some((code, 3))
    } else if b0 <= 0xf7 {
        if n - i < 4 {
            return None;
        }
        let b1 = bytes[i + 1];
        let b2 = bytes[i + 2];
        let b3 = bytes[i + 3];
        if !(0x80 <= b1 && b1 <= 0xbf) || !(0x80 <= b2 && b2 <= 0xbf) || !(0x80 <= b3 && b3
            <= 0xbf) {
            return None;
        }
        let code: u32 = (((b0 & 0x07) as u32) << 18u32) | (((b1 & 0x3f) as u32) << 12u32) | (((b2
            & 0x3f) as u32) << 6u32) | ((b3 & 0x3f) as u32);
        if code < 0x10000 || code > 0x10ffff {
            // Overlong four-byte encoding, or beyond the last scalar value.
            return None;
        }
        Some((code, 4))
    } else {
        // 0xf8 and above lead no scalar encoding at all.
        None
    }
}

impl OneChar {
    /// Validate a raw command-line token: decode it as UTF-8 and accept it
    /// exactly when it holds one Unicode scalar value.
    pub fn parse(bytes: &Vec<u8>) -> (r: Result<OneChar, OneCharError>)
        ensures
            ({
                match spec_one_char(bytes@) {
                    Ok(c) => r == Ok::<OneChar, OneCharError>(OneChar(c)),
                    Err(e) => r == Err::<OneChar, OneCharError>(e),
                }
            }),
    {
        let n = bytes.len();
        let mut i: usize = 0;
        let mut count: usize = 0;
        let mut first: u32 = 0;
        let ghost mut decoded: Seq<char> = Seq::empty();
        proof {
            assert(bytes@.subrange(0, n as int) =~= bytes@);
        }
        while i < n
            invariant
                i <= n,
                n == bytes@.len(),
                valid_utf8(bytes@) <==> valid_utf8(bytes@.subrange(i as int, n as int)),
                valid_utf8(bytes@) ==> decode_utf8(bytes@) =~= decoded + decode_utf8(
                    bytes@.subrange(i as int, n as int),
                ),
                count == decoded.len(),
                count <= i,
                count >= 1 ==> decoded[0] as u32 == first,
            decreases n - i,
        {
            let ghost suffix = bytes@.subrange(i as int, n as int);
            match decode_scalar_at(bytes, i) {
                None => {
                    proof {
                        assert(!valid_utf8(suffix));
                    }
                    return Err(OneCharError::InvalidEncoding);
                },
                Some(p) => {
                    let code = p.0;
                    let len = p.1;
                    proof {
                        let rest = bytes@.subrange(i as int + len as int, n as int);
                        assert(pop_first_scalar(suffix) =~= rest);
                        assert(valid_utf8(suffix) <==> valid_utf8(rest));
                        if valid_utf8(bytes@) {
                            assert(decode_utf8(suffix) =~= seq![code as char] + decode_utf8(
                                rest,
                            ));
                        }
                        decoded = decoded + seq![code as char];
                    }
                    if count == 0 {
                        first = code;
                    }
                    count = count + 1;
                    i = i + len;
                },
            }
        }
        proof {
            assert(bytes@.subrange(n as int, n as int) =~= Seq::<u8>::empty());
            assert(valid_utf8(bytes@));
            assert(decode_utf8(bytes@) =~= decoded);
        }
        if count == 0 {
            Err(OneCharError::EmptyInput)
        } else if count == 1 {
            match char::from_u32(first) {
                Some(c) => {
                    proof {
                        char_u32_cast(decoded[0], first);
                        char_u32_cast(c, first);
                    }
                    Ok(OneChar(c))
                },
                None => {
                    proof {
                        char_is_scalar(decoded[0]);
                        assert(false);
                    }
                    Err(OneCharError::InvalidEncoding)
                },
            }
        } else {
            Err(OneCharError::TooManyCharacters(count))
        }
    }
}

/// Validation accepts every single-scalar token: the UTF-8 encoding of any
/// one scalar value parses to exactly that value.
pub proof fn lemma_single_scalar_accepted(c: char)
    ensures
        spec_one_char(encode_utf8(seq![c])) == Ok::<char, OneCharError>(c),
{
    let bytes = encode_utf8(seq![c]);
    encode_utf8_valid_utf8(seq![c]);
    encode_utf8_decode_utf8(seq![c]);
    char_is_scalar(c);
    assert(bytes.len() > 0);
}

/// The empty token is rejected as [`OneCharError::EmptyInput`].
pub proof fn lemma_empty_rejected()
    ensures
        spec_one_char(Seq::<u8>::empty()) == Err::<char, OneCharError>(OneCharError::EmptyInput),
{
}

/// A token of two or more scalar values is rejected, and the reported count
/// is the true number of scalar values it encodes.
pub proof fn lemma_multi_scalar_rejected(chars: Seq<char>)
    requires
        chars.len() >= 2,
        chars.len() <= usize::MAX,
    ensures
        spec_one_char(encode_utf8(chars)) == Err::<char, OneCharError>(
            OneCharError::TooManyCharacters(chars.len() as usize),
        ),
{
    encode_utf8_valid_utf8(chars);
    encode_utf8_decode_utf8(chars);
    assert(decode_utf8(encode_utf8(chars)).len() >= 2);
}

/// A byte sequence that is not valid UTF-8 is rejected as
/// [`OneCharError::InvalidEncoding`].
pub proof fn lemma_invalid_encoding_rejected(bytes: Seq<u8>)
    requires
        !valid_utf8(bytes),
    ensures
        spec_one_char(bytes) == Err::<char, OneCharError>(OneCharError::InvalidEncoding),
{
}

} // verus!
