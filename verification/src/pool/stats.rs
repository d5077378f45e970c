//! Figures on what a store holds.

use vstd::prelude::*;

verus! {

/// What a scan of the store sees of one entry.
#[derive(Clone, Copy, Debug, PartialEq, Eq)]
pub struct EntryInfo {
    /// The number of handles to the entry's buffer, the store's own among
    /// them.
    pub strong_count: usize,
    /// The length of the entry's content in bytes.
    pub byte_len: usize,
}

/// Whether a buffer with `strong_count` handles is held by anyone but the
/// store, whose own handle is one of them.
pub fn is_referenced(strong_count: usize) -> (referenced: bool)
    ensures
        referenced == (strong_count > 1),
{
    strong_count > 1
}

impl EntryInfo {
    /// The number of handles that are held outside the store.
    pub open spec fn spec_ref_count(&self) -> usize {
        if self.strong_count >= 1 {
            (self.strong_count - 1) as usize
        } else {
            0
        }
    }

    /// The number of handles that are held outside the store.
    #[verifier::when_used_as_spec(spec_ref_count)]
    pub fn ref_count(&self) -> (count: usize)
        ensures
            count == self.spec_ref_count(),
    {
        if self.strong_count >= 1 {
            self.strong_count - 1
        } else {
            0
        }
    }
}

/// The number of entries of `infos` that are held outside the store.
pub open spec fn count_referenced(infos: Seq<EntryInfo>) -> nat
    decreases infos.len(),
{
    if infos.len() == 0 {
        0
    } else if infos.last().strong_count > 1 {
        count_referenced(infos.drop_last()) + 1
    } else {
        count_referenced(infos.drop_last())
    }
}

/// No more entries are referenced than there are entries.
pub proof fn lemma_count_referenced_bound(infos: Seq<EntryInfo>)
    ensures
        count_referenced(infos) <= infos.len(),
    decreases infos.len(),
{
    if infos.len() > 0 {
        lemma_count_referenced_bound(infos.drop_last());
    }
}

/// No entry is referenced exactly where the count of referenced entries is
/// zero.
pub proof fn lemma_count_referenced_zero(infos: Seq<EntryInfo>)
    ensures
        count_referenced(infos) == 0 <==> forall|i: int|
            0 <= i < infos.len() ==> (#[trigger] infos[i]).strong_count <= 1,
    decreases infos.len(),
{
    if infos.len() > 0 {
        let front = infos.drop_last();
        lemma_count_referenced_zero(front);
        if count_referenced(infos) == 0 {
            assert forall|i: int| 0 <= i < infos.len() implies (#[trigger] infos[i]).strong_count
                <= 1 by {
                if i < front.len() {
                    assert(front[i] == infos[i]);
                }
            }
        }
    }
}

/// Every entry is referenced exactly where the count of referenced entries
/// is the number of entries.
pub proof fn lemma_count_referenced_all(infos: Seq<EntryInfo>)
    ensures
        count_referenced(infos) == infos.len() <==> forall|i: int|
            0 <= i < infos.len() ==> (#[trigger] infos[i]).strong_count > 1,
    decreases infos.len(),
{
    if infos.len() > 0 {
        let front = infos.drop_last();
        lemma_count_referenced_all(front);
        lemma_count_referenced_bound(front);
        if count_referenced(infos) == infos.len() {
            assert forall|i: int| 0 <= i < infos.len() implies (#[trigger] infos[i]).strong_count
                > 1 by {
                if i < front.len() {
                    assert(front[i] == infos[i]);
                }
            }
        }
    }
}

/// The entries of `infos` that a sweep keeps, going by
/// [`is_referenced`], in their order.
pub open spec fn swept(infos: Seq<EntryInfo>) -> Seq<EntryInfo> {
    infos.filter(|info: EntryInfo| info.strong_count > 1)
}

/// A sweep keeps exactly the referenced entries, and each as it was; so a
/// second sweep, on counts that have not changed, keeps them all and
/// removes nothing.
pub proof fn lemma_swept(infos: Seq<EntryInfo>)
    ensures
        swept(infos).len() == count_referenced(infos),
        forall|i: int| 0 <= i < swept(infos).len() ==> (#[trigger] swept(infos)[i]).strong_count > 1,
        forall|i: int| 0 <= i < swept(infos).len() ==> infos.contains(#[trigger] swept(infos)[i]),
        forall|i: int|
            0 <= i < infos.len() && (#[trigger] infos[i]).strong_count > 1 ==> swept(
                infos,
            ).contains(infos[i]),
        swept(swept(infos)) == swept(infos),
        count_referenced(swept(infos)) == swept(infos).len(),
    decreases infos.len(),
{
    broadcast use vstd::seq_lib::group_filter_ensures;

    lemma_swept_len(infos);
    lemma_swept_from(infos);
    assert(swept(swept(infos)) == swept(infos)) by {
        lemma_filter_all(swept(infos));
    }
    lemma_count_referenced_all(swept(infos));
}

proof fn lemma_swept_len(infos: Seq<EntryInfo>)
    ensures
        swept(infos).len() == count_referenced(infos),
    decreases infos.len(),
{
    reveal(Seq::filter);
    if infos.len() > 0 {
        lemma_swept_len(infos.drop_last());
    }
}

proof fn lemma_swept_from(infos: Seq<EntryInfo>)
    ensures
        forall|i: int| 0 <= i < swept(infos).len() ==> infos.contains(#[trigger] swept(infos)[i]),
    decreases infos.len(),
{
    reveal(Seq::filter);
    if infos.len() > 0 {
        let front = infos.drop_last();
        lemma_swept_from(front);
        assert forall|i: int| 0 <= i < swept(infos).len() implies infos.contains(
            #[trigger] swept(infos)[i],
        ) by {
            if i < swept(front).len() {
                let j = choose|j: int| 0 <= j < front.len() && front[j] == swept(front)[i];
                assert(infos[j] == swept(infos)[i]);
            }
        }
    }
}

proof fn lemma_filter_all(infos: Seq<EntryInfo>)
    requires
        forall|i: int| 0 <= i < infos.len() ==> (#[trigger] infos[i]).strong_count > 1,
    ensures
        swept(infos) == infos,
    decreases infos.len(),
{
    reveal(Seq::filter);
    if infos.len() > 0 {
        lemma_filter_all(infos.drop_last());
    }
}

/// Aggregate figures on a store at one instant, or `Empty` for a store
/// without entries, of which a least and a greatest would mean nothing.
#[derive(Clone, Copy, Debug, PartialEq, Eq)]
pub enum StatsSnapshot {
    /// The store holds no entry.
    Empty,
    /// The store holds at least one entry.
    Stats {
        /// The number of entries.
        total: usize,
        /// The number of entries that someone outside the store holds.
        referenced: usize,
        /// The number of entries that only the store holds.
        non_referenced: usize,
        /// The greatest number of outside handles to one entry.
        max_ref_count: usize,
        /// The least number of outside handles to one entry.
        min_ref_count: usize,
        /// The length of the longest content.
        max_byte_len: usize,
        /// The length of the shortest content.
        min_byte_len: usize,
    },
}

impl StatsSnapshot {
    /// The snapshot sums up exactly the entries `infos`.
    pub open spec fn sums_up(&self, infos: Seq<EntryInfo>) -> bool {
        match *self {
            StatsSnapshot::Empty => infos.len() == 0,
            StatsSnapshot::Stats {
                total,
                referenced,
                non_referenced,
                max_ref_count,
                min_ref_count,
                max_byte_len,
                min_byte_len,
            } => {
                &&& infos.len() > 0
                &&& total == infos.len()
                &&& referenced == count_referenced(infos)
                &&& non_referenced == total - referenced
                &&& forall|i: int|
                    0 <= i < infos.len() ==> min_ref_count <= (#[trigger] infos[i]).ref_count()
                        <= max_ref_count
                &&& exists|i: int| 0 <= i < infos.len() && infos[i].ref_count() == max_ref_count
                &&& exists|i: int| 0 <= i < infos.len() && infos[i].ref_count() == min_ref_count
                &&& forall|i: int|
                    0 <= i < infos.len() ==> min_byte_len <= (#[trigger] infos[i]).byte_len
                        <= max_byte_len
                &&& exists|i: int| 0 <= i < infos.len() && infos[i].byte_len == max_byte_len
                &&& exists|i: int| 0 <= i < infos.len() && infos[i].byte_len == min_byte_len
            },
        }
    }

    /// The figures agree with each other: the parts add up to the total, the
    /// least is no more than the greatest, no entry is referenced exactly
    /// where the greatest count is zero, and every entry is referenced
    /// exactly where the least count is not zero.
    pub open spec fn is_sound(&self) -> bool {
        match *self {
            StatsSnapshot::Empty => true,
            StatsSnapshot::Stats {
                total,
                referenced,
                non_referenced,
                max_ref_count,
                min_ref_count,
                max_byte_len,
                min_byte_len,
            } => {
                &&& total > 0
                &&& referenced + non_referenced == total
                &&& min_ref_count <= max_ref_count
                &&& min_byte_len <= max_byte_len
                &&& (referenced == 0 <==> max_ref_count == 0)
                &&& (non_referenced == 0 <==> min_ref_count > 0)
            },
        }
    }

    /// Sums up the entries that a scan has seen.
    pub fn summarize(infos: &[EntryInfo]) -> (snapshot: StatsSnapshot)
        ensures
            snapshot.sums_up(infos@),
    {
        let total = infos.len();
        if total == 0 {
            return StatsSnapshot::Empty;
        }
        let first = infos[0];
        let mut referenced: usize = 0;
        let mut max_ref_count = first.ref_count();
        let mut min_ref_count = max_ref_count;
        let mut max_byte_len = first.byte_len;
        let mut min_byte_len = max_byte_len;
        let mut n: usize = 0;
        while n < total
            invariant
                total == infos@.len(),
                0 < total,
                n <= total,
                referenced == count_referenced(infos@.take(n as int)),
                forall|i: int|
                    0 <= i < n ==> min_ref_count <= (#[trigger] infos@[i]).ref_count()
                        <= max_ref_count,
                exists|i: int| 0 <= i < total && infos@[i].ref_count() == max_ref_count,
                exists|i: int| 0 <= i < total && infos@[i].ref_count() == min_ref_count,
                forall|i: int|
                    0 <= i < n ==> min_byte_len <= (#[trigger] infos@[i]).byte_len
                        <= max_byte_len,
                exists|i: int| 0 <= i < total && infos@[i].byte_len == max_byte_len,
                exists|i: int| 0 <= i < total && infos@[i].byte_len == min_byte_len,
            decreases total - n,
        {
            let info = infos[n];
            proof {
                assert(infos@.take(n + 1).drop_last() =~= infos@.take(n as int));
                lemma_count_referenced_bound(infos@.take(n as int));
            }
            if is_referenced(info.strong_count) {
                referenced += 1;
            }
            let ref_count = info.ref_count();
            if ref_count > max_ref_count {
                max_ref_count = ref_count;
            }
            if ref_count < min_ref_count {
                min_ref_count = ref_count;
            }
            if info.byte_len > max_byte_len {
                max_byte_len = info.byte_len;
            }
            if info.byte_len < min_byte_len {
                min_byte_len = info.byte_len;
            }
            n += 1;
        }
        proof {
            assert(infos@.take(total as int) =~= infos@);
            lemma_count_referenced_bound(infos@);
        }
        StatsSnapshot::Stats {
            total,
            referenced,
            non_referenced: total - referenced,
            max_ref_count,
            min_ref_count,
            max_byte_len,
            min_byte_len,
        }
    }
}

} // verus!
