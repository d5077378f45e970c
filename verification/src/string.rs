//! The pooled string.

use vstd::prelude::*;
use std::borrow::Cow;
use vstd::string::StringSliceAdditionalSpecFns;
use vstd::utf8::decode_utf8;
use vstd::utf8::encode_scalar;
use vstd::utf8::encode_utf8;
use vstd::utf8::encode_utf8_decode_utf8;
use vstd::utf8::encode_utf8_valid_utf8;
use vstd::utf8::is_char_boundary;
use vstd::utf8::is_char_boundary_iff_not_is_continuation_byte;
use vstd::utf8::is_char_boundary_start_end_of_seq;
use vstd::utf8::is_continuation_byte;
use vstd::utf8::valid_utf8;
use vstd::utf8::valid_utf8_concat;
use vstd::utf8::valid_utf8_split;
use crate::encoding::char_at;
use crate::encoding::encode_char;
use crate::encoding::utf16_decoded;
use crate::encoding::utf16_lossy;
use crate::encoding::utf8_lossy;
use crate::encoding::validate_utf8;
use crate::encoding::FromUtf16Error;
use crate::encoding::FromUtf8Error;
use crate::encoding::Utf8Error;
use crate::pool::lemma_join_three;
use crate::pool::lemma_join_two;
use crate::pool::parts_of;
use crate::pool::GlobalPool;
use crate::pool::Pool;
use crate::pool::SlicesWrap;

mod order;
mod traits;

verus! {

/// A string whose content lives in a [`Pool`].
///
/// The content is immutable: every operation that changes it computes the
/// new bytes, interns them in the pool, and swaps the handle. The view of a
/// string is its bytes, which are always valid UTF-8.
pub struct String<P: Pool = GlobalPool> {
    raw: P::Raw,
    pool: P,
}

impl<P: Pool> View for String<P> {
    type V = Seq<u8>;

    closed spec fn view(&self) -> Seq<u8> {
        P::raw_view(&self.raw)
    }
}

// constructors
impl<P: Pool> String<P> {
    #[verifier::type_invariant]
    spec fn holds_utf8(&self) -> bool {
        valid_utf8(P::raw_view(&self.raw))
    }

    /// The characters that the content encodes.
    pub open spec fn text(&self) -> Seq<char> {
        decode_utf8(self@)
    }

    /// The empty string, in `pool`.
    pub fn new_in(pool: P) -> (string: Self)
        ensures
            string@ == Seq::<u8>::empty(),
    {
        let raw = pool.raw_empty();
        Self { raw, pool }
    }

    /// The string of the text `s`, in `pool`.
    pub fn from_str_in(s: &str, pool: P) -> (string: Self)
        ensures
            string@ == s.spec_bytes(),
            string.text() == s@,
    {
        broadcast use {encode_utf8_valid_utf8, encode_utf8_decode_utf8};

        let raw = pool.raw_from_str(s);
        Self { raw, pool }
    }

    /// The string of the bytes in `vec`, where they are UTF-8; else the
    /// reason why they are not, with the bytes.
    pub fn from_utf8_in(vec: Vec<u8>, pool: P) -> (res: Result<Self, FromUtf8Error>)
        ensures
            match res {
                Ok(string) => valid_utf8(vec@) && string@ == vec@,
                Err(e) => !valid_utf8(vec@) && e.bytes@ == vec@ && e.error.describes(vec@),
            },
    {
        match validate_utf8(vec.as_slice()) {
            Ok(_) => {
                let raw = pool.raw_from_vec(vec);
                Ok(Self { raw, pool })
            },
            Err(error) => Err(FromUtf8Error { bytes: vec, error }),
        }
    }

    /// The string of the bytes in `slice`, where they are UTF-8; else the
    /// reason why they are not.
    pub fn from_utf8_slice_in(slice: &[u8], pool: P) -> (res: Result<Self, Utf8Error>)
        ensures
            match res {
                Ok(string) => valid_utf8(slice@) && string@ == slice@,
                Err(e) => !valid_utf8(slice@) && e.describes(slice@),
            },
    {
        match validate_utf8(slice) {
            Ok(_) => {
                let raw = pool.raw_from_slice(slice);
                Ok(Self { raw, pool })
            },
            Err(error) => Err(error),
        }
    }

    /// The string that the bytes of `v` decode to when every invalid sequence
    /// is replaced by U+FFFD. Valid UTF-8 is taken as it is.
    pub fn from_utf8_lossy_in(v: &[u8], pool: P) -> (string: Self)
        ensures
            string.text() == utf8_lossy(v@),
            valid_utf8(v@) ==> string@ == v@,
    {
        broadcast use vstd::utf8::decode_utf8_encode_utf8;

        match std::string::String::from_utf8_lossy(v) {
            Cow::Borrowed(text) => Self::from_str_in(text, pool),
            Cow::Owned(text) => Self::from_str_in(text.as_str(), pool),
        }
    }

    /// The string that `v` decodes to as UTF-16, where it is valid UTF-16.
    pub fn from_utf16_in(v: &[u16], pool: P) -> (res: Result<Self, FromUtf16Error>)
        ensures
            match res {
                Ok(string) => utf16_decoded(v@) == Some(string.text()),
                Err(_) => utf16_decoded(v@) is None,
            },
    {
        match std::string::String::from_utf16(v) {
            Ok(text) => Ok(Self::from_str_in(text.as_str(), pool)),
            Err(_) => Err(FromUtf16Error),
        }
    }

    /// The string that `v` decodes to as UTF-16 when every unpaired surrogate
    /// is replaced by U+FFFD.
    pub fn from_utf16_lossy_in(v: &[u16], pool: P) -> (string: Self)
        ensures
            string.text() == utf16_lossy(v@),
            utf16_decoded(v@) matches Some(decoded) ==> string.text() == decoded,
    {
        let text = std::string::String::from_utf16_lossy(v);
        Self::from_str_in(text.as_str(), pool)
    }

    /// The string of the bytes in `bytes`, which the caller knows to be UTF-8.
    pub fn from_utf8_unchecked_in(bytes: Vec<u8>, pool: P) -> (string: Self)
        requires
            valid_utf8(bytes@),
        ensures
            string@ == bytes@,
    {
        let raw = pool.raw_from_vec(bytes);
        Self { raw, pool }
    }

    /// The string of the bytes in `slice`, which the caller knows to be
    /// UTF-8.
    pub fn from_utf8_unchecked_slice_in(slice: &[u8], pool: P) -> (string: Self)
        requires
            valid_utf8(slice@),
        ensures
            string@ == slice@,
    {
        let raw = pool.raw_from_slice(slice);
        Self { raw, pool }
    }

    /// A string of the same content in another pool.
    pub fn to_other_pool<Q: Pool>(&self, pool: Q) -> (string: String<Q>)
        ensures
            string@ == self@,
    {
        proof {
            use_type_invariant(self);
        }
        let slice = self.pool.raw_to_slice(&self.raw);
        let raw = pool.raw_from_slice(slice);
        String { raw, pool }
    }

    /// Moves the content into another pool.
    pub fn into_other_pool<Q: Pool>(self, pool: Q) -> (string: String<Q>)
        ensures
            string@ == self@,
    {
        proof {
            use_type_invariant(&self);
        }
        let vec = self.pool.raw_into_vec(self.raw);
        let raw = pool.raw_from_vec(vec);
        String { raw, pool }
    }

    /// A string of the same content in another pool.
    pub fn clone_to<Q: Pool>(&self, pool: Q) -> (string: String<Q>)
        ensures
            string@ == self@,
    {
        self.to_other_pool(pool)
    }
}

// reading
impl<P: Pool> String<P> {
    /// The content.
    pub fn as_bytes(&self) -> (bytes: &[u8])
        ensures
            bytes@ == self@,
            valid_utf8(bytes@),
    {
        proof {
            use_type_invariant(self);
        }
        self.pool.raw_to_slice(&self.raw)
    }

    /// The content as a `str`.
    pub fn as_str(&self) -> (text: &str)
        ensures
            text.spec_bytes() == self@,
            text@ == self.text(),
    {
        broadcast use encode_utf8_decode_utf8;

        match core::str::from_utf8(self.as_bytes()) {
            Ok(text) => text,
            Err(_) => vstd::pervasive::unreached(),
        }
    }

    /// The length of the content in bytes.
    pub fn len(&self) -> (len: usize)
        ensures
            len == self@.len(),
    {
        self.as_bytes().len()
    }

    /// Whether the content is empty.
    pub fn is_empty(&self) -> (empty: bool)
        ensures
            empty == (self@.len() == 0),
    {
        self.as_bytes().len() == 0
    }

    /// Whether `index` is the start of a character of the content, or its
    /// end.
    pub fn is_char_boundary(&self, index: usize) -> (boundary: bool)
        ensures
            boundary == is_char_boundary(self@, index as int),
    {
        let bytes = self.as_bytes();
        if index == 0 || index == bytes.len() {
            proof {
                is_char_boundary_start_end_of_seq(bytes@);
            }
            true
        } else if index > bytes.len() {
            false
        } else {
            proof {
                is_char_boundary_iff_not_is_continuation_byte(bytes@, index as int);
            }
            let byte = bytes[index];
            !(0x80 <= byte && byte <= 0xbf)
        }
    }

    /// Gives up the string for an owned copy of its content.
    pub fn into_bytes(self) -> (bytes: Vec<u8>)
        ensures
            bytes@ == self@,
    {
        self.pool.raw_into_vec(self.raw)
    }

    /// Gives up the string for an owned, boxed copy of its text.
    pub fn into_boxed_str(self) -> (boxed: Box<str>)
        ensures
            boxed@ == self.text(),
    {
        boxed_text(self.as_str())
    }

    /// Gives up the string for a copy of its text that is never freed.
    pub fn leak<'h>(self) -> (text: &'h mut str)
        ensures
            text@ == self.text(),
    {
        leaked_text(self.into_boxed_str())
    }
}

// changing
impl<P: Pool> String<P> {
    /// Appends `string`.
    pub fn push_str(&mut self, string: &str)
        ensures
            final(self)@ == old(self)@ + string.spec_bytes(),
            final(self).text() == old(self).text() + string@,
    {
        broadcast use {encode_utf8_valid_utf8, encode_utf8_decode_utf8};

        proof {
            use_type_invariant(&*self);
            lemma_concat_text(self@, string.spec_bytes());
        }
        let new_raw = {
            let head = self.pool.raw_to_slice(&self.raw);
            let tail = string.as_bytes();
            let list: [&[u8]; 2] = [head, tail];
            proof {
                lemma_join_two(head, tail);
            }
            self.pool.raw_from_slices(SlicesWrap(list.as_slice()))
        };
        self.raw = new_raw;
    }

    /// Appends the character `ch`.
    pub fn push(&mut self, ch: char)
        ensures
            final(self)@ == old(self)@ + encode_scalar(ch as u32),
            final(self).text() == old(self).text().push(ch),
    {
        proof {
            use_type_invariant(&*self);
            lemma_char_text(ch);
            lemma_concat_text(self@, encode_scalar(ch as u32));
        }
        let (buffer, len) = encode_char(ch);
        let new_raw = {
            let head = self.pool.raw_to_slice(&self.raw);
            let tail = vstd::slice::slice_subrange(buffer.as_slice(), 0, len);
            let list: [&[u8]; 2] = [head, tail];
            proof {
                lemma_join_two(head, tail);
            }
            self.pool.raw_from_slices(SlicesWrap(list.as_slice()))
        };
        self.raw = new_raw;
    }

    /// Cuts the content down to its first `new_len` bytes. Where the content
    /// is no longer than that, nothing changes.
    pub fn truncate(&mut self, new_len: usize)
        requires
            new_len <= old(self)@.len() ==> is_char_boundary(old(self)@, new_len as int),
        ensures
            final(self)@ == if new_len <= old(self)@.len() {
                old(self)@.take(new_len as int)
            } else {
                old(self)@
            },
            final(self).text() == if new_len <= old(self)@.len() {
                old(self).text().take(chars_before(old(self)@, new_len as int))
            } else {
                old(self).text()
            },
    {
        proof {
            use_type_invariant(&*self);
        }
        if new_len > self.len() {
            return ;
        }
        let new_raw = {
            let bytes = self.pool.raw_to_slice(&self.raw);
            let head = vstd::slice::slice_subrange(bytes, 0, new_len);
            proof {
                valid_utf8_split(bytes@, new_len as int);
                assert(head@ =~= bytes@.take(new_len as int));
                let tail = bytes@.skip(new_len as int);
                assert(tail =~= bytes@.subrange(new_len as int, bytes@.len() as int));
                lemma_concat_text(head@, tail);
                assert(bytes@ =~= head@ + tail);
                assert((decode_utf8(head@) + decode_utf8(tail)).take(
                    decode_utf8(head@).len() as int,
                ) =~= decode_utf8(head@));
            }
            self.pool.raw_from_slice(head)
        };
        self.raw = new_raw;
    }

    /// Takes the last character off the content and returns it, or returns
    /// `None` where the content is empty.
    pub fn pop(&mut self) -> (last: Option<char>)
        ensures
            match last {
                Some(ch) => {
                    &&& old(self)@ == final(self)@ + encode_scalar(ch as u32)
                    &&& old(self).text().len() > 0
                    &&& ch == old(self).text().last()
                    &&& final(self).text() == old(self).text().drop_last()
                },
                None => {
                    &&& old(self)@.len() == 0
                    &&& old(self).text().len() == 0
                    &&& final(self)@ == old(self)@
                },
            },
    {
        proof {
            use_type_invariant(&*self);
        }
        let (ch, new_raw) = {
            let bytes = self.pool.raw_to_slice(&self.raw);
            let len = bytes.len();
            if len == 0 {
                return None;
            }
            proof {
                is_char_boundary_start_end_of_seq(bytes@);
                is_char_boundary_iff_not_is_continuation_byte(bytes@, 0);
            }
            let mut start: usize = len - 1;
            while 0x80 <= bytes[start] && bytes[start] <= 0xbf
                invariant
                    valid_utf8(bytes@),
                    len == bytes@.len(),
                    start < len,
                    !is_continuation_byte(bytes@[0]),
                    forall|j: int| start < j < len ==> is_continuation_byte(#[trigger] bytes@[j]),
                decreases start,
            {
                start -= 1;
            }
            proof {
                is_char_boundary_iff_not_is_continuation_byte(bytes@, start as int);
            }
            let (ch, ch_len) = char_at(bytes, start);
            proof {
                if start + ch_len < len {
                    is_char_boundary_iff_not_is_continuation_byte(bytes@, start + ch_len);
                }
                valid_utf8_split(bytes@, start as int);
                assert(bytes@ =~= bytes@.take(start as int) + encode_scalar(ch as u32));
                lemma_char_text(ch);
                lemma_concat_text(bytes@.take(start as int), encode_scalar(ch as u32));
                let front = decode_utf8(bytes@.take(start as int));
                assert(decode_utf8(bytes@) == front.push(ch));
            }
            let head = vstd::slice::slice_subrange(bytes, 0, start);
            assert(head@ =~= bytes@.take(start as int));
            (ch, self.pool.raw_from_slice(head))
        };
        self.raw = new_raw;
        Some(ch)
    }

    /// Takes the character that starts at byte `i` out of the content and
    /// returns it.
    pub fn remove(&mut self, i: usize) -> (ch: char)
        requires
            i < old(self)@.len(),
            is_char_boundary(old(self)@, i as int),
        ensures
            old(self)@.subrange(i as int, i + encode_scalar(ch as u32).len()) == encode_scalar(
                ch as u32,
            ),
            final(self)@ == old(self)@.take(i as int) + old(self)@.skip(
                i + encode_scalar(ch as u32).len(),
            ),
            chars_before(old(self)@, i as int) < old(self).text().len(),
            ch == old(self).text()[chars_before(old(self)@, i as int)],
            final(self).text() == old(self).text().remove(chars_before(old(self)@, i as int)),
    {
        proof {
            use_type_invariant(&*self);
        }
        let (ch, new_raw) = {
            let bytes = self.pool.raw_to_slice(&self.raw);
            let len = bytes.len();
            let (ch, ch_len) = char_at(bytes, i);
            let next = i + ch_len;
            let head = vstd::slice::slice_subrange(bytes, 0, i);
            let tail = vstd::slice::slice_subrange(bytes, next, len);
            let list: [&[u8]; 2] = [head, tail];
            proof {
                valid_utf8_split(bytes@, i as int);
                valid_utf8_split(bytes@, next as int);
                valid_utf8_concat(head@, tail@);
                lemma_join_two(head, tail);
                assert(head@ =~= bytes@.take(i as int));
                assert(tail@ =~= bytes@.skip(next as int));
                lemma_char_text(ch);
                lemma_concat_text(head@, encode_scalar(ch as u32));
                lemma_concat_text(head@ + encode_scalar(ch as u32), tail@);
                lemma_concat_text(head@, tail@);
                assert(bytes@ =~= head@ + encode_scalar(ch as u32) + tail@);
                let before = decode_utf8(head@);
                let after = decode_utf8(tail@);
                assert((before + seq![ch] + after).remove(before.len() as int) =~= before
                    + after);
            }
            (ch, self.pool.raw_from_slices(SlicesWrap(list.as_slice())))
        };
        self.raw = new_raw;
        ch
    }

    /// Puts the character `ch` in at byte `i`.
    pub fn insert(&mut self, i: usize, ch: char)
        requires
            is_char_boundary(old(self)@, i as int),
        ensures
            final(self)@ == old(self)@.take(i as int) + encode_scalar(ch as u32) + old(self)@.skip(
                i as int,
            ),
            chars_before(old(self)@, i as int) <= old(self).text().len(),
            final(self).text() == old(self).text().insert(chars_before(old(self)@, i as int), ch),
    {
        proof {
            lemma_char_text(ch);
        }
        let (buffer, len) = encode_char(ch);
        let piece = vstd::slice::slice_subrange(buffer.as_slice(), 0, len);
        self.insert_bytes(i, piece);
        proof {
            let before = decode_utf8(old(self)@.take(i as int));
            let after = decode_utf8(old(self)@.skip(i as int));
            assert((before + after).insert(before.len() as int, ch) =~= before + seq![ch]
                + after);
        }
    }

    /// Puts `string` in at byte `i`.
    pub fn insert_str(&mut self, i: usize, string: &str)
        requires
            is_char_boundary(old(self)@, i as int),
        ensures
            final(self)@ == old(self)@.take(i as int) + string.spec_bytes() + old(self)@.skip(
                i as int,
            ),
            final(self).text() == decode_utf8(old(self)@.take(i as int)) + string@ + decode_utf8(
                old(self)@.skip(i as int),
            ),
    {
        broadcast use {encode_utf8_valid_utf8, encode_utf8_decode_utf8};

        self.insert_bytes(i, string.as_bytes());
    }

    fn insert_bytes(&mut self, i: usize, piece: &[u8])
        requires
            is_char_boundary(old(self)@, i as int),
            valid_utf8(piece@),
        ensures
            final(self)@ == old(self)@.take(i as int) + piece@ + old(self)@.skip(i as int),
            old(self).text() == decode_utf8(old(self)@.take(i as int)) + decode_utf8(
                old(self)@.skip(i as int),
            ),
            final(self).text() == decode_utf8(old(self)@.take(i as int)) + decode_utf8(piece@)
                + decode_utf8(old(self)@.skip(i as int)),
    {
        proof {
            use_type_invariant(&*self);
            lemma_boundary_in_range(self@, i as int);
        }
        let new_raw = {
            let bytes = self.pool.raw_to_slice(&self.raw);
            let head = vstd::slice::slice_subrange(bytes, 0, i);
            let tail = vstd::slice::slice_subrange(bytes, i, bytes.len());
            let list: [&[u8]; 3] = [head, piece, tail];
            proof {
                valid_utf8_split(bytes@, i as int);
                valid_utf8_concat(head@, piece@);
                valid_utf8_concat(head@ + piece@, tail@);
                lemma_join_three(head, piece, tail);
                assert(head@ =~= bytes@.take(i as int));
                assert(tail@ =~= bytes@.skip(i as int));
                lemma_concat_text(head@, tail@);
                lemma_concat_text(head@, piece@);
                lemma_concat_text(head@ + piece@, tail@);
                assert(bytes@ =~= head@ + tail@);
            }
            self.pool.raw_from_slices(SlicesWrap(list.as_slice()))
        };
        self.raw = new_raw;
    }

    /// Cuts the content at byte `at`: the string keeps what is before, and
    /// what is after comes back as a string in the same pool.
    pub fn split_off(&mut self, at: usize) -> (rest: Self)
        requires
            is_char_boundary(old(self)@, at as int),
        ensures
            final(self)@ == old(self)@.take(at as int),
            rest@ == old(self)@.skip(at as int),
            old(self).text() == final(self).text() + rest.text(),
    {
        let pool = self.pool.clone();
        self.split_off_in(at, pool)
    }

    /// Cuts the content at byte `at`: the string keeps what is before, and
    /// what is after comes back as a string in `pool`.
    pub fn split_off_in<Q: Pool>(&mut self, at: usize, pool: Q) -> (rest: String<Q>)
        requires
            is_char_boundary(old(self)@, at as int),
        ensures
            final(self)@ == old(self)@.take(at as int),
            rest@ == old(self)@.skip(at as int),
            old(self).text() == final(self).text() + rest.text(),
    {
        proof {
            use_type_invariant(&*self);
            lemma_boundary_in_range(self@, at as int);
        }
        let (self_raw, other_raw) = {
            let bytes = self.pool.raw_to_slice(&self.raw);
            let head = vstd::slice::slice_subrange(bytes, 0, at);
            let tail = vstd::slice::slice_subrange(bytes, at, bytes.len());
            proof {
                valid_utf8_split(bytes@, at as int);
                assert(head@ =~= bytes@.take(at as int));
                assert(tail@ =~= bytes@.skip(at as int));
                lemma_concat_text(head@, tail@);
                assert(bytes@ =~= head@ + tail@);
            }
            (self.pool.raw_from_slice(head), pool.raw_from_slice(tail))
        };
        self.raw = self_raw;
        String { raw: other_raw, pool }
    }

    /// Empties the string.
    pub fn clear(&mut self)
        ensures
            final(self)@ == Seq::<u8>::empty(),
            final(self).text() == Seq::<char>::empty(),
    {
        self.raw = self.pool.raw_empty();
    }
}

impl<P: Pool> String<P> {
    /// Keeps the characters for which `f` answers `true` and drops the
    /// others. `f` is asked once for each character, in order.
    pub fn retain<F>(&mut self, f: F) where F: Fn(char) -> bool
        requires
            forall|ch: char| call_requires(f, (ch,)),
        ensures
            exists|keep: Seq<bool>| #[trigger]
                answers(f, old(self).text(), keep) && final(self)@ == encode_utf8(
                    kept(old(self).text(), keep),
                ) && final(self).text() == kept(old(self).text(), keep),
    {
        broadcast use encode_utf8_valid_utf8;

        proof {
            use_type_invariant(&*self);
        }
        let ghost mut keep: Seq<bool> = Seq::empty();
        let new_raw = {
            let bytes = self.pool.raw_to_slice(&self.raw);
            let len = bytes.len();
            let mut retained: Vec<&[u8]> = Vec::with_capacity(len / 2 + 1);
            let mut state: Option<usize> = None;
            let mut i: usize = 0;
            proof {
                is_char_boundary_start_end_of_seq(bytes@);
                assert(bytes@.take(0) =~= Seq::<u8>::empty());
            }
            while i < len
                invariant
                    valid_utf8(bytes@),
                    len == bytes@.len(),
                    i <= len,
                    is_char_boundary(bytes@, i as int),
                    forall|ch: char| call_requires(f, (ch,)),
                    answers(f, decode_utf8(bytes@.take(i as int)), keep),
                    match state {
                        Some(start) => start <= i && parts_of(retained@).flatten()
                            + bytes@.subrange(start as int, i as int) == encode_utf8(
                            kept(decode_utf8(bytes@.take(i as int)), keep),
                        ),
                        None => parts_of(retained@).flatten() == encode_utf8(
                            kept(decode_utf8(bytes@.take(i as int)), keep),
                        ),
                    },
                decreases len - i,
            {
                let (ch, ch_len) = char_at(bytes, i);
                let answer = f(ch);
                let ghost text = decode_utf8(bytes@.take(i as int));
                let ghost before = keep;
                proof {
                    keep = keep.push(answer);
                    valid_utf8_split(bytes@, i as int);
                    lemma_char_text(ch);
                    lemma_concat_text(bytes@.take(i as int), encode_scalar(ch as u32));
                    assert(bytes@.take(i + ch_len) =~= bytes@.take(i as int) + encode_scalar(
                        ch as u32,
                    ));
                    assert(decode_utf8(bytes@.take(i + ch_len)) =~= text.push(ch));
                    assert(text.push(ch).drop_last() =~= text);
                    assert(keep.drop_last() =~= before);
                    lemma_encode_push(kept(text, before), ch);
                }
                match (answer, state) {
                    (true, None) => {
                        state = Some(i);
                        assert(bytes@.subrange(i as int, i + ch_len) =~= encode_scalar(ch as u32));
                    },
                    (false, Some(start)) => {
                        let ghost parts = parts_of(retained@);
                        let streak = vstd::slice::slice_subrange(bytes, start, i);
                        retained.push(streak);
                        proof {
                            assert(parts_of(retained@) =~= parts.push(streak@));
                            parts.lemma_flatten_push(streak@);
                        }
                        state = None;
                    },
                    (true, Some(start)) => {
                        assert(bytes@.subrange(start as int, i + ch_len) =~= bytes@.subrange(
                            start as int,
                            i as int,
                        ) + encode_scalar(ch as u32));
                    },
                    (false, None) => {},
                }
                i += ch_len;
            }
            assert(bytes@.take(len as int) =~= bytes@);
            match state {
                Some(start) => {
                    let ghost parts = parts_of(retained@);
                    let streak = vstd::slice::slice_subrange(bytes, start, len);
                    retained.push(streak);
                    proof {
                        assert(parts_of(retained@) =~= parts.push(streak@));
                        parts.lemma_flatten_push(streak@);
                    }
                },
                None => {},
            }
            self.pool.raw_from_slices(SlicesWrap(retained.as_slice()))
        };
        self.raw = new_raw;
        proof {
            encode_utf8_decode_utf8(kept(old(self).text(), keep));
        }
    }
}

/// The characters of `text` whose answer in `keep` is `true`, in order.
pub open spec fn kept(text: Seq<char>, keep: Seq<bool>) -> Seq<char>
    decreases text.len(),
{
    if text.len() == 0 {
        Seq::<char>::empty()
    } else if keep.last() {
        kept(text.drop_last(), keep.drop_last()).push(text.last())
    } else {
        kept(text.drop_last(), keep.drop_last())
    }
}

/// `keep` holds, for each character of `text`, an answer that `f` may give
/// for it.
pub open spec fn answers<F: Fn(char) -> bool>(f: F, text: Seq<char>, keep: Seq<bool>) -> bool {
    &&& keep.len() == text.len()
    &&& forall|k: int| 0 <= k < text.len() ==> call_ensures(f, (text[k],), #[trigger] keep[k])
}

/// The number of characters that are encoded before byte `i` of `bytes`,
/// where `i` is a character boundary.
pub open spec fn chars_before(bytes: Seq<u8>, i: int) -> int {
    decode_utf8(bytes.take(i)).len() as int
}

/// The encoding of one character is valid UTF-8 and decodes to that
/// character.
pub proof fn lemma_char_text(ch: char)
    ensures
        valid_utf8(encode_scalar(ch as u32)),
        decode_utf8(encode_scalar(ch as u32)) == seq![ch],
{
    let text = seq![ch];
    assert(encode_utf8(text.drop_first()) =~= Seq::<u8>::empty());
    encode_utf8_valid_utf8(text);
    encode_utf8_decode_utf8(text);
}

/// A character boundary lies inside the content or at its end.
pub proof fn lemma_boundary_in_range(bytes: Seq<u8>, i: int)
    requires
        valid_utf8(bytes),
        is_char_boundary(bytes, i),
    ensures
        0 <= i <= bytes.len(),
{
}

/// Appending a character to a text appends its encoding to the encoding of
/// the text.
pub proof fn lemma_encode_push(text: Seq<char>, ch: char)
    ensures
        encode_utf8(text.push(ch)) == encode_utf8(text) + encode_scalar(ch as u32),
    decreases text.len(),
{
    if text.len() == 0 {
        let one = text.push(ch);
        assert(encode_utf8(one.drop_first()) =~= Seq::<u8>::empty());
    } else {
        assert(text.push(ch).drop_first() =~= text.drop_first().push(ch));
        lemma_encode_push(text.drop_first(), ch);
    }
}

/// Where two runs of valid UTF-8 meet is a character boundary of the whole,
/// and the whole decodes to the text of the one followed by the text of the
/// other.
pub proof fn lemma_concat_text(a: Seq<u8>, b: Seq<u8>)
    requires
        valid_utf8(a),
        valid_utf8(b),
    ensures
        valid_utf8(a + b),
        is_char_boundary(a + b, a.len() as int),
        decode_utf8(a + b) == decode_utf8(a) + decode_utf8(b),
{
    let whole = a + b;
    valid_utf8_concat(a, b);
    if b.len() == 0 {
        is_char_boundary_start_end_of_seq(whole);
    } else {
        is_char_boundary_start_end_of_seq(b);
        is_char_boundary_iff_not_is_continuation_byte(b, 0);
        is_char_boundary_iff_not_is_continuation_byte(whole, a.len() as int);
    }
    vstd::utf8::decode_utf8_split(whole, a.len() as int);
    assert(whole.subrange(0, a.len() as int) =~= a);
    assert(whole.subrange(a.len() as int, whole.len() as int) =~= b);
}

/// `Box::<str>::from`: an owned, boxed copy of the text.
#[verifier::external_body]
fn boxed_text(text: &str) -> (boxed: Box<str>)
    ensures
        boxed@ == text@,
{
    Box::from(text)
}

/// `Box::leak`: the text of the box, which is never freed.
#[verifier::external_body]
fn leaked_text<'h>(boxed: Box<str>) -> (text: &'h mut str)
    ensures
        text@ == boxed@,
{
    Box::leak(boxed)
}

} // verus!
