//! The pool interface and the multi-slice view that pools are probed with.

use vstd::prelude::*;
use vstd::seq_lib::lemma_flatten_concat;
use vstd::string::StringSliceAdditionalSpecFns;

pub mod global;
pub mod no;
pub mod stats;

pub use global::GlobalPool;
pub use global::SliceHashWrap;
pub use global::Store;
pub use no::NoPool;
pub use stats::StatsSnapshot;

use crate::digest::digest;
use crate::digest::feed_byte;
use crate::digest::finish_hasher;
use crate::digest::hasher_fed;
use crate::digest::new_hasher;
use crate::digest::write_byte;
use core::hash::Hash;
use core::hash::Hasher;

verus! {

/// The byte sequences that a list of slices holds, in the order of the list.
pub open spec fn parts_of(slices: Seq<&[u8]>) -> Seq<Seq<u8>> {
    slices.map_values(|s: &[u8]| s@)
}

/// An ordered list of byte slices that stands for their concatenation.
///
/// Its view is the joined content. Everything that reads a `SlicesWrap`
/// (joining, iterating, hashing, comparing) goes by that view alone, so
/// how the content is split into slices never shows.
pub struct SlicesWrap<'h>(pub &'h [&'h [u8]]);

impl<'h> View for SlicesWrap<'h> {
    type V = Seq<u8>;

    open spec fn view(&self) -> Seq<u8> {
        parts_of(self.0@).flatten()
    }
}

impl<'h> SlicesWrap<'h> {
    /// Joins the slices in sequence into one owned buffer.
    pub fn to_boxed_slice(&self) -> (joined: Box<[u8]>)
        ensures
            joined@ == self@,
    {
        let mut out: Vec<u8> = Vec::new();
        let mut i: usize = 0;
        while i < self.0.len()
            invariant
                i <= self.0@.len(),
                out@ == parts_of(self.0@.take(i as int)).flatten(),
            decreases self.0@.len() - i,
        {
            let slice: &[u8] = self.0[i];
            out.extend_from_slice(slice);
            proof {
                lemma_parts_prefix(self.0@, i as int);
            }
            i += 1;
        }
        assert(self.0@.take(self.0@.len() as int) =~= self.0@);
        vec_into_boxed_slice(out)
    }

    /// An iterator over the bytes of the joined content.
    pub fn into_iter(&self) -> (iter: SlicesWrapIter<'h>)
        ensures
            iter@ == self@,
    {
        let mut stack: Vec<&'h [u8]> = Vec::with_capacity(self.0.len());
        let mut i: usize = self.0.len();
        while i > 0
            invariant
                i <= self.0@.len(),
                stack@ == self.0@.skip(i as int).reverse(),
            decreases i,
        {
            i -= 1;
            stack.push(self.0[i]);
        }
        assert(stack@.reverse() =~= self.0@);
        SlicesWrapIter(stack)
    }

    /// The hash of the joined content: every byte of every slice, in order,
    /// goes through the hasher, and nothing else does.
    pub fn content_hash(&self) -> (hash: u64)
        ensures
            hash == digest(self@),
    {
        let mut hasher = new_hasher();
        let mut rest = self.into_iter();
        loop
            invariant
                self@ == hasher_fed(hasher) + rest@,
            ensures
                hasher_fed(hasher) == self@,
            decreases rest@.len(),
        {
            match rest.next() {
                Some(byte) => {
                    let ghost fed = hasher_fed(hasher);
                    feed_byte(&mut hasher, byte);
                    assert(fed.push(byte) + rest@ =~= self@);
                },
                None => {
                    break ;
                },
            }
        }
        finish_hasher(&hasher)
    }
}

impl<'h> Hash for SlicesWrap<'h> {
    /// Feeds the hasher every byte of every slice, in order, and nothing
    /// else: no length, and no mark where one slice ends.
    fn hash<H: Hasher>(&self, state: &mut H) {
        let mut rest = self.into_iter();
        loop
            decreases rest@.len(),
        {
            match rest.next() {
                Some(byte) => {
                    write_byte(state, byte);
                },
                None => {
                    break ;
                },
            }
        }
    }
}

/// What a stack of slices still has to yield when it is read from its top
/// (its last slice) down to its bottom.
pub open spec fn stack_bytes(stack: Seq<&[u8]>) -> Seq<u8> {
    parts_of(stack.reverse()).flatten()
}

/// Yields the bytes of a [`SlicesWrap`] one slice after the other.
///
/// The slices still to be read are kept as a stack, the current one on top.
pub struct SlicesWrapIter<'h>(Vec<&'h [u8]>);

impl<'h> View for SlicesWrapIter<'h> {
    type V = Seq<u8>;

    /// The bytes that are still to come, in order.
    closed spec fn view(&self) -> Seq<u8> {
        stack_bytes(self.0@)
    }
}

impl<'h> SlicesWrapIter<'h> {
    /// The next byte of the joined content, or `None` at its end.
    pub fn next(&mut self) -> (item: Option<u8>)
        ensures
            match item {
                Some(byte) => old(self)@.len() > 0 && byte == old(self)@[0] && final(self)@ == old(
                    self,
                )@.drop_first(),
                None => old(self)@.len() == 0 && final(self)@.len() == 0,
            },
    {
        loop
            invariant
                self@ == old(self)@,
            decreases self.0@.len(),
        {
            let ghost before = self.0@;
            match self.0.pop() {
                None => {
                    proof {
                        lemma_stack_empty(before);
                    }
                    return None;
                },
                Some(slice) => {
                    proof {
                        assert(before =~= self.0@.push(slice));
                        lemma_stack_push(self.0@, slice);
                    }
                    if slice.len() > 0 {
                        let byte = slice[0];
                        let ghost below = self.0@;
                        let tail = vstd::slice::slice_subrange(slice, 1, slice.len());
                        self.0.push(tail);
                        proof {
                            lemma_stack_push(below, tail);
                            assert(tail@ + stack_bytes(below) =~= (slice@ + stack_bytes(
                                below,
                            )).drop_first());
                        }
                        return Some(byte);
                    }
                    assert(slice@ + stack_bytes(self.0@) =~= stack_bytes(self.0@));
                },
            }
        }
    }

    /// The number of bytes still to come, as both the lower and the upper
    /// bound.
    pub fn size_hint(&self) -> (bounds: (usize, Option<usize>))
        requires
            self@.len() <= usize::MAX,
        ensures
            bounds.0 == self@.len(),
            bounds.1 == Some(bounds.0),
    {
        let mut len: usize = 0;
        let mut i: usize = self.0.len();
        let ghost order = self.0@.reverse();
        while i > 0
            invariant
                i <= self.0@.len(),
                order == self.0@.reverse(),
                parts_of(order).flatten().len() <= usize::MAX,
                len == parts_of(order.take(self.0@.len() - i)).flatten().len(),
            decreases i,
        {
            let ghost k = self.0@.len() - i;
            i -= 1;
            proof {
                lemma_parts_prefix(order, k);
                assert(parts_of(order) =~= parts_of(order.take(k + 1)) + parts_of(
                    order.skip(k + 1),
                ));
                lemma_flatten_concat(parts_of(order.take(k + 1)), parts_of(order.skip(k + 1)));
            }
            len += self.0[i].len();
        }
        assert(order.take(order.len() as int) =~= order);
        (len, Some(len))
    }
}

/// What the rest of the library asks of a string store: to turn content
/// into a handle, and a handle back into its bytes.
///
/// A pool is a cheap, clonable reference to its backing store. Content is
/// plain bytes here; that it is UTF-8 is the business of the string type
/// built on top.
pub trait Pool: Clone {
    /// The handle that this pool gives out for a piece of content.
    type Raw;

    /// The bytes that a handle stands for.
    spec fn raw_view(raw: &Self::Raw) -> Seq<u8>;

    /// Interns the concatenation of `slices` and returns its handle.
    fn raw_from_slices(&self, slices: SlicesWrap) -> (raw: Self::Raw)
        ensures
            Self::raw_view(&raw) == slices@,
    ;

    /// The bytes behind a handle.
    fn raw_to_slice<'r>(&self, raw: &'r Self::Raw) -> (bytes: &'r [u8])
        ensures
            bytes@ == Self::raw_view(raw),
    ;

    /// Interns one slice. The default goes through
    /// [`raw_from_slices`](Pool::raw_from_slices).
    fn raw_from_slice(&self, slice: &[u8]) -> (raw: Self::Raw)
        ensures
            Self::raw_view(&raw) == slice@,
    {
        let list: [&[u8]; 1] = [slice];
        let slices = SlicesWrap(list.as_slice());
        proof {
            assert(parts_of(slices.0@) =~= seq![slice@]);
            seq![slice@].lemma_flatten_one_element();
        }
        self.raw_from_slices(slices)
    }

    /// Interns the bytes of a text. The default goes through
    /// [`raw_from_slice`](Pool::raw_from_slice).
    fn raw_from_str(&self, text: &str) -> (raw: Self::Raw)
        ensures
            Self::raw_view(&raw) == text.spec_bytes(),
    {
        self.raw_from_slice(text.as_bytes())
    }

    /// The handle of the empty content.
    fn raw_empty(&self) -> (raw: Self::Raw)
        ensures
            Self::raw_view(&raw) == Seq::<u8>::empty(),
    {
        let list: [&[u8]; 0] = [];
        self.raw_from_slices(SlicesWrap(list.as_slice()))
    }

    /// Interns the content of an owned buffer. The default goes through
    /// [`raw_from_slice`](Pool::raw_from_slice).
    fn raw_from_vec(&self, vec: Vec<u8>) -> (raw: Self::Raw)
        ensures
            Self::raw_view(&raw) == vec@,
    {
        self.raw_from_slice(vec.as_slice())
    }

    /// Another handle to the same content. The default interns the content
    /// anew, which in a deduplicating pool finds the same buffer again.
    fn raw_clone(&self, raw: &Self::Raw) -> (copy: Self::Raw)
        ensures
            Self::raw_view(&copy) == Self::raw_view(raw),
    {
        self.raw_from_slice(self.raw_to_slice(raw))
    }

    /// Gives up a handle for an owned copy of its bytes.
    fn raw_into_vec(&self, raw: Self::Raw) -> (vec: Vec<u8>)
        ensures
            vec@ == Self::raw_view(&raw),
    {
        vstd::slice::slice_to_vec(self.raw_to_slice(&raw))
    }

    /// Gives up a handle for an owned, boxed copy of its bytes.
    fn raw_into_boxed_slice(&self, raw: Self::Raw) -> (boxed: Box<[u8]>)
        ensures
            boxed@ == Self::raw_view(&raw),
    {
        vec_into_boxed_slice(self.raw_into_vec(raw))
    }

    /// Advises the pool of how many distinct strings to expect. Nothing is
    /// promised; the default ignores the advice.
    fn reserve(&self, capacity: usize) {
    }
}

/// Whether two runs of bytes hold the same bytes.
pub fn same_bytes(a: &[u8], b: &[u8]) -> (same: bool)
    ensures
        same == (a@ == b@),
{
    if a.len() != b.len() {
        return false;
    }
    let mut i: usize = 0;
    while i < a.len()
        invariant
            a@.len() == b@.len(),
            i <= a@.len(),
            a@.take(i as int) == b@.take(i as int),
        decreases a@.len() - i,
    {
        if a[i] != b[i] {
            return false;
        }
        i += 1;
    }
    assert(a@.take(a@.len() as int) =~= a@);
    assert(b@.take(b@.len() as int) =~= b@);
    true
}

/// How one run of bytes stands to another in lexicographic order.
#[derive(Clone, Copy, Debug, PartialEq, Eq)]
pub enum ByteOrder {
    /// The first run comes before the second.
    Before,
    /// The runs hold the same bytes.
    Same,
    /// The first run comes after the second.
    After,
}

/// The lexicographic order of two byte sequences: the first byte in which
/// they differ decides, and a sequence comes before those it is a proper
/// prefix of.
pub open spec fn byte_order(a: Seq<u8>, b: Seq<u8>) -> ByteOrder
    decreases a.len(),
{
    if a.len() == 0 {
        if b.len() == 0 {
            ByteOrder::Same
        } else {
            ByteOrder::Before
        }
    } else if b.len() == 0 {
        ByteOrder::After
    } else if a[0] < b[0] {
        ByteOrder::Before
    } else if a[0] > b[0] {
        ByteOrder::After
    } else {
        byte_order(a.drop_first(), b.drop_first())
    }
}

/// Two byte sequences stand to each other as they do past a first byte that
/// they share.
proof fn lemma_byte_order_step(a: Seq<u8>, b: Seq<u8>, i: int)
    requires
        0 <= i < a.len(),
        i < b.len(),
        a[i] == b[i],
    ensures
        byte_order(a.skip(i), b.skip(i)) == byte_order(a.skip(i + 1), b.skip(i + 1)),
{
    assert(a.skip(i).drop_first() =~= a.skip(i + 1));
    assert(b.skip(i).drop_first() =~= b.skip(i + 1));
}

/// Two byte sequences stand as the same to each other exactly where they
/// are equal.
pub proof fn lemma_same_order_is_equality(a: Seq<u8>, b: Seq<u8>)
    ensures
        (byte_order(a, b) == ByteOrder::Same) == (a == b),
    decreases a.len(),
{
    if a.len() > 0 && b.len() > 0 && a[0] == b[0] {
        lemma_same_order_is_equality(a.drop_first(), b.drop_first());
        if a.drop_first() == b.drop_first() {
            assert(a =~= seq![a[0]] + a.drop_first());
            assert(b =~= seq![b[0]] + b.drop_first());
        }
    } else if a.len() == 0 && b.len() == 0 {
        assert(a =~= b);
    }
}

/// How `a` stands to `b` in lexicographic order.
pub fn order_bytes(a: &[u8], b: &[u8]) -> (order: ByteOrder)
    ensures
        order == byte_order(a@, b@),
{
    let mut i: usize = 0;
    assert(a@.skip(0) =~= a@ && b@.skip(0) =~= b@);
    while i < a.len() && i < b.len()
        invariant
            i <= a@.len(),
            i <= b@.len(),
            byte_order(a@, b@) == byte_order(a@.skip(i as int), b@.skip(i as int)),
        decreases a@.len() - i,
    {
        if a[i] < b[i] {
            return ByteOrder::Before;
        }
        if a[i] > b[i] {
            return ByteOrder::After;
        }
        proof {
            lemma_byte_order_step(a@, b@, i as int);
        }
        i += 1;
    }
    if i < b.len() {
        ByteOrder::Before
    } else if i < a.len() {
        ByteOrder::After
    } else {
        ByteOrder::Same
    }
}

/// `Vec::into_boxed_slice`: the box holds the vector's items, in order.
#[verifier::external_body]
pub(crate) fn vec_into_boxed_slice(vec: Vec<u8>) -> (boxed: Box<[u8]>)
    ensures
        boxed@ == vec@,
{
    vec.into_boxed_slice()
}

/// Two slices join to the one followed by the other.
pub proof fn lemma_join_two(a: &[u8], b: &[u8])
    ensures
        parts_of(seq![a, b]).flatten() == a@ + b@,
{
    assert(parts_of(seq![a, b]) =~= seq![a@].push(b@));
    seq![a@].lemma_flatten_one_element();
    seq![a@].lemma_flatten_push(b@);
}

/// Three slices join to the first, then the second, then the third.
pub proof fn lemma_join_three(a: &[u8], b: &[u8], c: &[u8])
    ensures
        parts_of(seq![a, b, c]).flatten() == a@ + b@ + c@,
{
    assert(parts_of(seq![a, b, c]) =~= parts_of(seq![a, b]).push(c@));
    lemma_join_two(a, b);
    parts_of(seq![a, b]).lemma_flatten_push(c@);
}

/// A byte sequence that is cut in two joins to itself again.
pub proof fn lemma_cut_in_two(bytes: Seq<u8>, at: int)
    requires
        0 <= at <= bytes.len(),
    ensures
        seq![bytes.take(at), bytes.skip(at)].flatten() == bytes,
{
    seq![bytes.take(at)].lemma_flatten_one_element();
    seq![bytes.take(at)].lemma_flatten_push(bytes.skip(at));
    assert(seq![bytes.take(at)].push(bytes.skip(at)) =~= seq![bytes.take(at), bytes.skip(at)]);
    assert(bytes.take(at) + bytes.skip(at) =~= bytes);
}

/// Cutting one part of a list of parts in two changes nothing of what the
/// list joins to. So any cut of a byte sequence into contiguous slices, made
/// one cut at a time, joins to that sequence.
pub proof fn lemma_cut_further(parts: Seq<Seq<u8>>, k: int, at: int)
    requires
        0 <= k < parts.len(),
        0 <= at <= parts[k].len(),
    ensures
        (parts.take(k) + seq![parts[k].take(at), parts[k].skip(at)] + parts.skip(
            k + 1,
        )).flatten() == parts.flatten(),
{
    let pieces = seq![parts[k].take(at), parts[k].skip(at)];
    lemma_cut_in_two(parts[k], at);
    seq![parts[k]].lemma_flatten_one_element();
    lemma_flatten_concat(parts.take(k), pieces);
    lemma_flatten_concat(parts.take(k) + pieces, parts.skip(k + 1));
    lemma_flatten_concat(parts.take(k), seq![parts[k]]);
    lemma_flatten_concat(parts.take(k) + seq![parts[k]], parts.skip(k + 1));
    assert(parts.take(k) + seq![parts[k]] + parts.skip(k + 1) =~= parts);
}

/// However a byte sequence is cut into slices, the slices hash as the whole
/// sequence does, and they compare equal to exactly the buffers that the
/// whole sequence compares equal to.
pub proof fn lemma_cut_is_transparent(cut: SlicesWrap, whole: SlicesWrap, buffer: Seq<u8>)
    requires
        whole.0@.len() == 1,
        cut@ == whole.0@[0]@,
    ensures
        whole@ == cut@,
        digest(cut@) == digest(whole@),
        (cut@ == buffer) == (whole@ == buffer),
{
    assert(parts_of(whole.0@) =~= seq![whole.0@[0]@]);
    seq![whole.0@[0]@].lemma_flatten_one_element();
}

/// Whichever pool interns them, and however each was cut into slices, equal
/// contents come back as handles to equal bytes.
pub proof fn lemma_equal_content_equal_bytes<P: Pool>(
    a: SlicesWrap,
    b: SlicesWrap,
    first: P::Raw,
    second: P::Raw,
)
    requires
        a@ == b@,
        P::raw_view(&first) == a@,
        P::raw_view(&second) == b@,
    ensures
        P::raw_view(&first) == P::raw_view(&second),
{
}

proof fn lemma_parts_prefix(slices: Seq<&[u8]>, i: int)
    requires
        0 <= i < slices.len(),
    ensures
        parts_of(slices.take(i + 1)).flatten() == parts_of(slices.take(i)).flatten() + slices[i]@,
{
    let parts = parts_of(slices.take(i));
    assert(parts_of(slices.take(i + 1)) =~= parts.push(slices[i]@));
    parts.lemma_flatten_push(slices[i]@);
}

proof fn lemma_stack_push(stack: Seq<&[u8]>, top: &[u8])
    ensures
        stack_bytes(stack.push(top)) == top@ + stack_bytes(stack),
{
    let parts = parts_of(stack.push(top).reverse());
    assert(parts.drop_first() =~= parts_of(stack.reverse()));
}

proof fn lemma_stack_empty(stack: Seq<&[u8]>)
    requires
        stack.len() == 0,
    ensures
        stack_bytes(stack) == Seq::<u8>::empty(),
{
}

} // verus!
