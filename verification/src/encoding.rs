//! Validation and conversion of text encodings, as the standard library
//! does them.

use vstd::prelude::*;
use std::borrow::Cow;
use vstd::string::StringSliceAdditionalSpecFns;
use vstd::utf8::decode_first_scalar;
use vstd::utf8::decode_utf8;
use vstd::utf8::encode_scalar;
use vstd::utf8::encode_utf8;
use vstd::utf8::encode_utf8_decode_utf8;
use vstd::utf8::encode_utf8_first_scalar;
use vstd::utf8::is_char_boundary;
use vstd::utf8::is_char_boundary_iff_not_is_continuation_byte;
use vstd::utf8::is_char_boundary_start_end_of_seq;
use vstd::utf8::length_of_first_scalar;
use vstd::utf8::take_first_scalar;
use vstd::utf8::valid_first_scalar;
use vstd::utf8::valid_utf8;
use vstd::utf8::valid_utf8_split;

verus! {

/// The error of `core::str::from_utf8`.
#[verifier::external_type_specification]
#[verifier::external_body]
pub struct ExStdUtf8Error(core::str::Utf8Error);

/// The error of `String::from_utf16`, which says no more than that it
/// happened.
#[verifier::external_type_specification]
#[verifier::external_body]
pub struct ExStdFromUtf16Error(std::string::FromUtf16Error);

/// `k` is the length of the longest prefix of `bytes` that is valid UTF-8.
pub open spec fn is_longest_valid_prefix(bytes: Seq<u8>, k: int) -> bool {
    &&& 0 <= k <= bytes.len()
    &&& valid_utf8(bytes.take(k))
    &&& forall|j: int| k < j <= bytes.len() ==> !valid_utf8(#[trigger] bytes.take(j))
}

/// What `Utf8Error::valid_up_to` returns for an error.
pub uninterp spec fn std_valid_up_to(error: core::str::Utf8Error) -> usize;

/// What `Utf8Error::error_len` returns for an error.
pub uninterp spec fn std_error_len(error: core::str::Utf8Error) -> Option<usize>;

/// The text that `String::from_utf8_lossy` makes of `bytes`.
pub uninterp spec fn utf8_lossy(bytes: Seq<u8>) -> Seq<char>;

/// The text that `units` decode to as UTF-16, where they are valid UTF-16.
pub uninterp spec fn utf16_decoded(units: Seq<u16>) -> Option<Seq<char>>;

/// The text that `String::from_utf16_lossy` makes of `units`.
pub uninterp spec fn utf16_lossy(units: Seq<u16>) -> Seq<char>;

/// `core::str::from_utf8` succeeds exactly on valid UTF-8 and then hands the
/// same bytes back as a `str`. Its error knows the longest valid prefix;
/// where it reports the length of the offending sequence, that length is 1
/// to 3 bytes, inside the input.
pub assume_specification[ core::str::from_utf8 ](v: &[u8]) -> (res: Result<
    &str,
    core::str::Utf8Error,
>)
    ensures
        match res {
            Ok(s) => valid_utf8(v@) && s.spec_bytes() == v@,
            Err(e) => {
                &&& !valid_utf8(v@)
                &&& is_longest_valid_prefix(v@, std_valid_up_to(e) as int)
                &&& std_error_len(e) matches Some(n) ==> 1 <= n <= 3 && std_valid_up_to(e) + n
                    <= v@.len()
            },
        },
;

/// `Utf8Error::valid_up_to`: a function of the error alone.
pub assume_specification[ core::str::Utf8Error::valid_up_to ](
    error: &core::str::Utf8Error,
) -> (index: usize)
    ensures
        index == std_valid_up_to(*error),
;

/// `Utf8Error::error_len`: a function of the error alone.
pub assume_specification[ core::str::Utf8Error::error_len ](
    error: &core::str::Utf8Error,
) -> (len: Option<usize>)
    ensures
        len == std_error_len(*error),
;

/// `String::from_utf8_lossy`: valid UTF-8 comes out as the text it encodes.
pub assume_specification<'a>[ std::string::String::from_utf8_lossy ](v: &'a [u8]) -> (text: Cow<
    'a,
    str,
>)
    ensures
        text@ == utf8_lossy(v@),
        valid_utf8(v@) ==> text@ == decode_utf8(v@),
;

/// `String::from_utf16` succeeds exactly on valid UTF-16.
pub assume_specification[ std::string::String::from_utf16 ](v: &[u16]) -> (res: Result<
    std::string::String,
    std::string::FromUtf16Error,
>)
    ensures
        match res {
            Ok(s) => utf16_decoded(v@) == Some(s@),
            Err(_) => utf16_decoded(v@) is None,
        },
;

/// `String::from_utf16_lossy` decodes valid UTF-16 as `String::from_utf16`
/// does.
pub assume_specification[ std::string::String::from_utf16_lossy ](v: &[u16]) -> (text:
    std::string::String)
    ensures
        text@ == utf16_lossy(v@),
        utf16_decoded(v@) matches Some(decoded) ==> text@ == decoded,
;

/// In valid UTF-8, the encoding that starts at a character boundary is
/// itself valid UTF-8, and it ends on a character boundary.
pub proof fn lemma_scalar_at_boundary(bytes: Seq<u8>, i: int)
    requires
        valid_utf8(bytes),
        0 <= i < bytes.len(),
        is_char_boundary(bytes, i),
    ensures
        valid_first_scalar(bytes.skip(i)),
        1 <= length_of_first_scalar(bytes.skip(i)) <= 4,
        i + length_of_first_scalar(bytes.skip(i)) <= bytes.len(),
        valid_utf8(bytes.subrange(i, i + length_of_first_scalar(bytes.skip(i)))),
        is_char_boundary(bytes, i + length_of_first_scalar(bytes.skip(i))),
{
    let tail = bytes.skip(i);
    let n = length_of_first_scalar(tail);
    assert(tail =~= bytes.subrange(i, bytes.len() as int));
    valid_utf8_split(bytes, i);
    assert(is_char_boundary(tail, n)) by {
        reveal_with_fuel(is_char_boundary, 2);
    }
    valid_utf8_split(tail, n);
    assert(tail.subrange(0, n) =~= bytes.subrange(i, i + n));
    if i + n == bytes.len() {
        is_char_boundary_start_end_of_seq(bytes);
    } else {
        is_char_boundary_iff_not_is_continuation_byte(tail, n);
        assert(tail[n] == bytes[i + n]);
        is_char_boundary_iff_not_is_continuation_byte(bytes, i + n);
    }
}

/// The length of the encoding that a leading byte announces.
fn encoded_len(lead: u8) -> (len: usize)
    ensures
        len == if lead <= 0x7f {
            1int
        } else if 0xc0 <= lead <= 0xdf {
            2int
        } else if 0xe0 <= lead <= 0xef {
            3int
        } else {
            4int
        },
{
    if lead <= 0x7f {
        1
    } else if 0xc0 <= lead && lead <= 0xdf {
        2
    } else if 0xe0 <= lead && lead <= 0xef {
        3
    } else {
        4
    }
}

/// The character whose encoding starts at byte `i` of valid UTF-8, and the
/// length of that encoding.
pub fn char_at(bytes: &[u8], i: usize) -> (found: (char, usize))
    requires
        valid_utf8(bytes@),
        i < bytes@.len(),
        is_char_boundary(bytes@, i as int),
    ensures
        found.0 as u32 == decode_first_scalar(bytes@.skip(i as int)),
        found.1 == length_of_first_scalar(bytes@.skip(i as int)),
        1 <= found.1 <= 4,
        i + found.1 <= bytes@.len(),
        bytes@.subrange(i as int, i + found.1) == encode_scalar(found.0 as u32),
        is_char_boundary(bytes@, i + found.1),
{
    broadcast use vstd::string::group_string_axioms;

    proof {
        lemma_scalar_at_boundary(bytes@, i as int);
    }
    let len = encoded_len(bytes[i]);
    assert(bytes@.skip(i as int)[0] == bytes@[i as int]);
    assert(len == length_of_first_scalar(bytes@.skip(i as int)));
    let piece = vstd::slice::slice_subrange(bytes, i, i + len);
    match core::str::from_utf8(piece) {
        Ok(text) => {
            let mut chars = text.chars();
            let first = chars.next();
            proof {
                encode_utf8_decode_utf8(text@);
                assert(piece@ =~= take_first_scalar(bytes@.skip(i as int)));
                assert(text@.len() > 0);
                encode_utf8_first_scalar(text@);
                assert(encode_utf8(text@) == encode_scalar(text@[0] as u32) + encode_utf8(
                    text@.drop_first(),
                ));
                assert(decode_first_scalar(piece@) == decode_first_scalar(bytes@.skip(i as int)));
            }
            match first {
                Some(c) => (c, len),
                None => vstd::pervasive::unreached(),
            }
        },
        Err(_) => vstd::pervasive::unreached(),
    }
}

/// The UTF-8 encoding of a character, in a buffer of four bytes of which the
/// first `encoded.1` count.
pub fn encode_char(ch: char) -> (encoded: ([u8; 4], usize))
    ensures
        1 <= encoded.1 <= 4,
        encoded.0@.take(encoded.1 as int) == encode_scalar(ch as u32),
{
    let scalar = ch as u32;
    if scalar <= 0x7f {
        let b0 = (scalar & 0x7f) as u8;
        let buffer = [b0, 0, 0, 0];
        (buffer, 1)
    } else if scalar <= 0x7ff {
        assert((scalar >> 6) & 0x1f <= 0xff && scalar & 0x3f <= 0xff) by (bit_vector);
        let b0 = 0xc0 | ((scalar >> 6) & 0x1f) as u8;
        let b1 = 0x80 | (scalar & 0x3f) as u8;
        let buffer = [b0, b1, 0, 0];
        (buffer, 2)
    } else if scalar <= 0xffff {
        assert((scalar >> 12) & 0x0f <= 0xff && (scalar >> 6) & 0x3f <= 0xff && scalar & 0x3f
            <= 0xff) by (bit_vector);
        let b0 = 0xe0 | ((scalar >> 12) & 0x0f) as u8;
        let b1 = 0x80 | ((scalar >> 6) & 0x3f) as u8;
        let b2 = 0x80 | (scalar & 0x3f) as u8;
        let buffer = [b0, b1, b2, 0];
        (buffer, 3)
    } else {
        assert((scalar >> 18) & 0x7 <= 0xff && (scalar >> 12) & 0x3f <= 0xff && (scalar >> 6)
            & 0x3f <= 0xff && scalar & 0x3f <= 0xff) by (bit_vector);
        let b0 = 0xf0 | ((scalar >> 18) & 0x7) as u8;
        let b1 = 0x80 | ((scalar >> 12) & 0x3f) as u8;
        let b2 = 0x80 | ((scalar >> 6) & 0x3f) as u8;
        let b3 = 0x80 | (scalar & 0x3f) as u8;
        let buffer = [b0, b1, b2, b3];
        (buffer, 4)
    }
}

/// Why a byte sequence is not UTF-8: where it stops being valid, and how
/// long the offending sequence is.
#[derive(Clone, Copy, Debug, PartialEq, Eq)]
pub struct Utf8Error {
    /// The length of the longest prefix of the input that is valid UTF-8.
    pub valid_up_to: usize,
    /// The length of the invalid sequence that follows that prefix, or `None`
    /// where the input ends in the middle of a character.
    pub error_len: Option<usize>,
}

impl Utf8Error {
    /// The error is one that validation reports for `bytes`.
    pub open spec fn describes(&self, bytes: Seq<u8>) -> bool {
        &&& is_longest_valid_prefix(bytes, self.valid_up_to as int)
        &&& self.error_len matches Some(n) ==> 1 <= n <= 3 && self.valid_up_to + n <= bytes.len()
    }

    /// The index up to which the input was valid UTF-8.
    pub fn valid_up_to(&self) -> (index: usize)
        ensures
            index == self.valid_up_to,
    {
        self.valid_up_to
    }

    /// The length of the invalid sequence, where one was met before the end
    /// of the input.
    pub fn error_len(&self) -> (len: Option<usize>)
        ensures
            len == self.error_len,
    {
        self.error_len
    }
}

/// The error of a conversion from an owned buffer: it hands the buffer back.
#[derive(Debug, PartialEq, Eq)]
pub struct FromUtf8Error {
    /// The bytes that were to be converted.
    pub bytes: Vec<u8>,
    /// Why they are not UTF-8.
    pub error: Utf8Error,
}

impl FromUtf8Error {
    /// The bytes that were to be converted.
    pub fn as_bytes(&self) -> (bytes: &[u8])
        ensures
            bytes@ == self.bytes@,
    {
        self.bytes.as_slice()
    }

    /// Takes back the bytes that were to be converted.
    pub fn into_bytes(self) -> (bytes: Vec<u8>)
        ensures
            bytes@ == self.bytes@,
    {
        self.bytes
    }

    /// Why the bytes are not UTF-8.
    pub fn utf8_error(&self) -> (error: Utf8Error)
        ensures
            error == self.error,
    {
        self.error
    }
}

/// The error of a conversion from UTF-16 that met an unpaired surrogate.
#[derive(Clone, Copy, Debug, PartialEq, Eq)]
pub struct FromUtf16Error;

/// Checks that `bytes` are UTF-8 and says, where they are not, why.
pub fn validate_utf8(bytes: &[u8]) -> (res: Result<(), Utf8Error>)
    ensures
        match res {
            Ok(_) => valid_utf8(bytes@),
            Err(e) => !valid_utf8(bytes@) && e.describes(bytes@),
        },
{
    match core::str::from_utf8(bytes) {
        Ok(_) => Ok(()),
        Err(e) => Err(Utf8Error { valid_up_to: e.valid_up_to(), error_len: e.error_len() }),
    }
}

} // verus!
