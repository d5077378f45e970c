//! The standard traits of the pooled string: cloning, reading as a `str`,
//! conversion and concatenation.

use vstd::prelude::*;
use vstd::std_specs::cmp::PartialEqSpecImpl;
use vstd::std_specs::convert::FromSpecImpl;
use vstd::std_specs::ops::AddSpecImpl;
use vstd::string::StringSliceAdditionalSpecFns;
use vstd::utf8::encode_utf8_valid_utf8;
use vstd::utf8::valid_utf8_concat;
use core::hash::Hash;
use core::hash::Hasher;
use core::ops::Add;
use core::ops::AddAssign;
use core::ops::Deref;
use crate::pool::lemma_join_two;
use crate::pool::same_bytes;
use crate::pool::Pool;
use crate::pool::SlicesWrap;
use crate::string::String;

verus! {

impl<P: Pool> Clone for String<P> {
    /// Another string of the same content, by another handle to the same
    /// buffer.
    fn clone(&self) -> (copy: Self)
        ensures
            copy@ == self@,
    {
        proof {
            use_type_invariant(self);
        }
        let raw = self.pool.raw_clone(&self.raw);
        let pool = self.pool.clone();
        String { raw, pool }
    }
}

impl<P: Pool> PartialEq for String<P> {
    fn eq(&self, other: &Self) -> (equal: bool) {
        same_bytes(self.as_bytes(), other.as_bytes())
    }
}

impl<P: Pool> PartialEqSpecImpl for String<P> {
    open spec fn obeys_eq_spec() -> bool {
        true
    }

    /// Strings are equal where their contents are.
    open spec fn eq_spec(&self, other: &Self) -> bool {
        self@ == other@
    }
}

impl<P: Pool> Eq for String<P> {

}

impl<P: Pool> Hash for String<P> {
    /// Feeds the hasher what the text feeds it as a `str`.
    fn hash<H: Hasher>(&self, state: &mut H) {
        hash_text(self.as_str(), state);
    }
}

/// `<str as Hash>::hash`: feeds the text to the hasher. Of what this does
/// to a hasher of any kind, nothing is stated.
#[verifier::external_body]
fn hash_text<H: Hasher>(text: &str, state: &mut H) {
    text.hash(state)
}

impl<P: Pool> Deref for String<P> {
    type Target = str;

    fn deref(&self) -> (text: &str)
        ensures
            text.spec_bytes() == self@,
            text@ == self.text(),
    {
        self.as_str()
    }
}

impl<'a, P: Pool> From<(&'a str, P)> for String<P> {
    /// The string of the text in the pool.
    fn from(pair: (&'a str, P)) -> (string: Self)
        ensures
            string@ == pair.0.spec_bytes(),
    {
        let (text, pool) = pair;
        String::from_str_in(text, pool)
    }
}

impl<'a, P: Pool> FromSpecImpl<(&'a str, P)> for String<P> {
    open spec fn obeys_from_spec() -> bool {
        false
    }

    open spec fn from_spec(pair: (&'a str, P)) -> Self {
        arbitrary()
    }
}

impl<'a, P: Pool> Add<&'a str> for String<P> {
    type Output = String<P>;

    /// The string with `rhs` appended.
    fn add(self, rhs: &'a str) -> (sum: String<P>)
        ensures
            sum@ == self@ + rhs.spec_bytes(),
    {
        let mut sum = self;
        sum.push_str(rhs);
        sum
    }
}

impl<'a, P: Pool> AddSpecImpl<&'a str> for String<P> {
    open spec fn obeys_add_spec() -> bool {
        false
    }

    open spec fn add_req(self, rhs: &'a str) -> bool {
        true
    }

    open spec fn add_spec(self, rhs: &'a str) -> String<P> {
        arbitrary()
    }
}

impl<'a, P: Pool> AddAssign<&'a str> for String<P> {
    /// Appends `rhs`.
    fn add_assign(&mut self, rhs: &'a str)
        ensures
            final(self)@ == old(self)@ + rhs.spec_bytes(),
    {
        self.push_str(rhs);
    }
}

impl<P: Pool> String<P> {
    /// A string of the content followed by `rhs`, in the same pool. The
    /// pool is asked for the two runs of bytes as they lie; nothing is
    /// joined unless the pool has to make a new buffer.
    fn followed_by(&self, rhs: &str) -> (sum: String<P>)
        ensures
            sum@ == self@ + rhs.spec_bytes(),
    {
        broadcast use encode_utf8_valid_utf8;

        proof {
            use_type_invariant(self);
            valid_utf8_concat(self@, rhs.spec_bytes());
        }
        let head = self.pool.raw_to_slice(&self.raw);
        let tail = rhs.as_bytes();
        let list: [&[u8]; 2] = [head, tail];
        proof {
            lemma_join_two(head, tail);
        }
        let raw = self.pool.raw_from_slices(SlicesWrap(list.as_slice()));
        let pool = self.pool.clone();
        String { raw, pool }
    }
}

impl<'a, 'b, P: Pool> Add<&'a str> for &'b String<P> {
    type Output = String<P>;

    /// A string of the content followed by `rhs`, in the same pool.
    fn add(self, rhs: &'a str) -> (sum: String<P>)
        ensures
            sum@ == self@ + rhs.spec_bytes(),
    {
        self.followed_by(rhs)
    }
}

impl<'a, 'b, P: Pool> AddSpecImpl<&'a str> for &'b String<P> {
    open spec fn obeys_add_spec() -> bool {
        false
    }

    open spec fn add_req(self, rhs: &'a str) -> bool {
        true
    }

    open spec fn add_spec(self, rhs: &'a str) -> String<P> {
        arbitrary()
    }
}

impl<P: Pool, Q: Pool> Add<String<Q>> for String<P> {
    type Output = String<P>;

    /// The string with the content of `rhs` appended.
    fn add(self, rhs: String<Q>) -> (sum: String<P>)
        ensures
            sum@ == self@ + rhs@,
    {
        let mut sum = self;
        sum.push_str(rhs.as_str());
        sum
    }
}

impl<P: Pool, Q: Pool> AddSpecImpl<String<Q>> for String<P> {
    open spec fn obeys_add_spec() -> bool {
        false
    }

    open spec fn add_req(self, rhs: String<Q>) -> bool {
        true
    }

    open spec fn add_spec(self, rhs: String<Q>) -> String<P> {
        arbitrary()
    }
}

impl<'b, P: Pool, Q: Pool> Add<String<Q>> for &'b String<P> {
    type Output = String<P>;

    /// A string of the content followed by the content of `rhs`, in the
    /// pool of the first.
    fn add(self, rhs: String<Q>) -> (sum: String<P>)
        ensures
            sum@ == self@ + rhs@,
    {
        self.followed_by(rhs.as_str())
    }
}

impl<'b, P: Pool, Q: Pool> AddSpecImpl<String<Q>> for &'b String<P> {
    open spec fn obeys_add_spec() -> bool {
        false
    }

    open spec fn add_req(self, rhs: String<Q>) -> bool {
        true
    }

    open spec fn add_spec(self, rhs: String<Q>) -> String<P> {
        arbitrary()
    }
}

impl<'a, P: Pool, Q: Pool> Add<&'a String<Q>> for String<P> {
    type Output = String<P>;

    /// The string with the content of `rhs` appended.
    fn add(self, rhs: &'a String<Q>) -> (sum: String<P>)
        ensures
            sum@ == self@ + rhs@,
    {
        let mut sum = self;
        sum.push_str(rhs.as_str());
        sum
    }
}

impl<'a, P: Pool, Q: Pool> AddSpecImpl<&'a String<Q>> for String<P> {
    open spec fn obeys_add_spec() -> bool {
        false
    }

    open spec fn add_req(self, rhs: &'a String<Q>) -> bool {
        true
    }

    open spec fn add_spec(self, rhs: &'a String<Q>) -> String<P> {
        arbitrary()
    }
}

impl<'a, 'b, P: Pool, Q: Pool> Add<&'a String<Q>> for &'b String<P> {
    type Output = String<P>;

    /// A string of the content followed by the content of `rhs`, in the
    /// pool of the first.
    fn add(self, rhs: &'a String<Q>) -> (sum: String<P>)
        ensures
            sum@ == self@ + rhs@,
    {
        self.followed_by(rhs.as_str())
    }
}

impl<'a, 'b, P: Pool, Q: Pool> AddSpecImpl<&'a String<Q>> for &'b String<P> {
    open spec fn obeys_add_spec() -> bool {
        false
    }

    open spec fn add_req(self, rhs: &'a String<Q>) -> bool {
        true
    }

    open spec fn add_spec(self, rhs: &'a String<Q>) -> String<P> {
        arbitrary()
    }
}

impl<P: Pool, Q: Pool> AddAssign<String<Q>> for String<P> {
    /// Appends the content of `rhs`.
    fn add_assign(&mut self, rhs: String<Q>)
        ensures
            final(self)@ == old(self)@ + rhs@,
    {
        self.push_str(rhs.as_str());
    }
}

impl<'a, P: Pool, Q: Pool> AddAssign<&'a String<Q>> for String<P> {
    /// Appends the content of `rhs`.
    fn add_assign(&mut self, rhs: &'a String<Q>)
        ensures
            final(self)@ == old(self)@ + rhs@,
    {
        self.push_str(rhs.as_str());
    }
}

} // verus!
