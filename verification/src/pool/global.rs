//! The deduplicating pool: a table of canonical buffers behind a
//! reader-writer lock.

use vstd::prelude::*;
use vstd::set_lib::lemma_len_subset;
use core::ops::Deref;
use core::ops::DerefMut;
use std::sync::Arc;
use crate::digest::digest;
use crate::digest::hash_bytes;
use crate::digest::write_byte;
use core::hash::Hash;
use core::hash::Hasher;
use hashbrown::Equivalent;
use crate::pool::same_bytes;
use crate::pool::stats::is_referenced;
use crate::pool::stats::lemma_count_referenced_all;
use crate::pool::stats::lemma_count_referenced_bound;
use crate::pool::stats::lemma_count_referenced_zero;
use crate::pool::stats::EntryInfo;
use crate::pool::stats::StatsSnapshot;
use crate::pool::Pool;
use crate::pool::SlicesWrap;

verus! {

/// A canonical buffer: the one shared, immutable copy of a piece of content.
///
/// It hashes as a [`SlicesWrap`] of the same content does: byte by byte.
#[derive(Debug)]
pub struct SliceHashWrap(Box<[u8]>);

impl View for SliceHashWrap {
    type V = Seq<u8>;

    closed spec fn view(&self) -> Seq<u8> {
        self.0@
    }
}

impl SliceHashWrap {
    /// The buffer of the content `bytes`.
    pub fn new(bytes: Box<[u8]>) -> (buffer: Self)
        ensures
            buffer@ == bytes@,
    {
        SliceHashWrap(bytes)
    }

    /// The content.
    pub fn as_bytes(&self) -> (bytes: &[u8])
        ensures
            bytes@ == self@,
    {
        &*self.0
    }

    /// The hash of the content, every byte of which goes through the hasher
    /// in order.
    pub fn content_hash(&self) -> (hash: u64)
        ensures
            hash == digest(self@),
    {
        hash_bytes(self.as_bytes())
    }
}

impl Hash for SliceHashWrap {
    /// Feeds the hasher every byte of the content, in order, and nothing
    /// else: what a [`SlicesWrap`] of the same content feeds it.
    fn hash<H: Hasher>(&self, state: &mut H) {
        let bytes = self.as_bytes();
        let mut i: usize = 0;
        while i < bytes.len()
            invariant
                i <= bytes@.len(),
            decreases bytes@.len() - i,
        {
            write_byte(state, bytes[i]);
            i += 1;
        }
    }
}

impl PartialEq for SliceHashWrap {
    fn eq(&self, other: &Self) -> (equal: bool) {
        same_bytes(self.as_bytes(), other.as_bytes())
    }
}

impl vstd::std_specs::cmp::PartialEqSpecImpl for SliceHashWrap {
    open spec fn obeys_eq_spec() -> bool {
        true
    }

    open spec fn eq_spec(&self, other: &Self) -> bool {
        self@ == other@
    }
}

impl Eq for SliceHashWrap {

}

impl<'h> Equivalent<Arc<SliceHashWrap>> for SlicesWrap<'h> {
    /// Whether the joined content is the content of the buffer `key`.
    fn equivalent(&self, key: &Arc<SliceHashWrap>) -> (same: bool)
        ensures
            same == (self@ == key@),
    {
        let bytes = key.as_bytes();
        let mut rest = self.into_iter();
        let mut i: usize = 0;
        loop
            invariant
                i <= bytes@.len(),
                bytes@ == key@,
                self@ == bytes@.take(i as int) + rest@,
            decreases rest@.len(),
        {
            match rest.next() {
                Some(byte) => {
                    if i >= bytes.len() {
                        assert(self@.len() > bytes@.len());
                        return false;
                    }
                    if bytes[i] != byte {
                        assert(self@[i as int] == byte);
                        return false;
                    }
                    assert(bytes@.take(i + 1) =~= bytes@.take(i as int).push(byte));
                    assert(bytes@.take(i + 1) + rest@ =~= self@);
                    i += 1;
                },
                None => {
                    assert(self@ =~= bytes@.take(i as int));
                    if i == bytes.len() {
                        assert(bytes@.take(i as int) =~= bytes@);
                    }
                    return i == bytes.len();
                },
            }
        }
    }
}

/// The largest capacity that a store sets aside in advance. Advice beyond
/// it is cut down to it.
pub const MAX_PRESIZE: usize = 0x10_0000;

/// `Arc::clone`: another handle to the same value.
#[verifier::external_body]
fn arc_clone<T>(arc: &Arc<T>) -> (copy: Arc<T>)
    ensures
        copy == *arc,
{
    Arc::clone(arc)
}

/// hashbrown's `HashTable` of canonical buffers, found by content. Verus
/// sees nothing inside it; what it holds goes by [`table_entries`].
#[verifier::external_body]
pub struct Table {
    inner: hashbrown::HashTable<Arc<SliceHashWrap>>,
}

/// What a table holds: each content that has an entry, with the hash under
/// which the entry was filed.
pub uninterp spec fn table_entries(table: Table) -> Map<Seq<u8>, u64>;

/// Every entry of the table is filed under the digest of its content.
pub open spec fn filed_by_digest(table: Table) -> bool {
    forall|content: Seq<u8>| #[trigger]
        table_entries(table).dom().contains(content) ==> table_entries(table)[content] == digest(
            content,
        )
}

/// The table holds an entry whose content is `len` bytes long.
pub open spec fn has_len(table: Table, len: usize) -> bool {
    exists|content: Seq<u8>| #[trigger]
        table_entries(table).dom().contains(content) && content.len() == len
}

/// `HashTable::with_capacity`: a table without entries. The capacity is
/// bounded so that the size of the allocation cannot overflow.
#[verifier::external_body]
fn table_with_capacity(capacity: usize) -> (table: Table)
    requires
        capacity <= MAX_PRESIZE,
    ensures
        table_entries(table).dom() == Set::<Seq<u8>>::empty(),
{
    Table { inner: hashbrown::HashTable::with_capacity(capacity) }
}

/// `HashTable::len`: the number of entries.
#[verifier::external_body]
fn table_len(table: &Table) -> (len: usize)
    ensures
        len == table_entries(*table).dom().len(),
{
    table.inner.len()
}

/// `HashTable::find`, with the equality of [`SlicesWrap::equivalent`]: an
/// entry that is found has the content asked for; and an entry of that
/// content that was filed under `hash` is found.
#[verifier::external_body]
fn table_find<'a>(table: &'a Table, hash: u64, slices: &SlicesWrap) -> (found: Option<
    &'a Arc<SliceHashWrap>,
>)
    ensures
        match found {
            Some(entry) => entry@ == slices@ && table_entries(*table).dom().contains(slices@),
            None => !(table_entries(*table).dom().contains(slices@) && table_entries(
                *table,
            )[slices@] == hash),
        },
{
    table.inner.find(hash, |entry| slices.equivalent(entry))
}

/// `HashTable::insert_unique`, which files `entry` under `hash` without
/// looking for an equal entry: so there must be none. When the table grows,
/// it hashes its entries anew with [`SliceHashWrap::content_hash`], which
/// must give for each the hash it was filed under. (A table too large for
/// the address space cannot grow; like running out of memory, that is left
/// out of account here.)
#[verifier::external_body]
fn table_insert(table: &mut Table, hash: u64, entry: Arc<SliceHashWrap>)
    requires
        !table_entries(*old(table)).dom().contains(entry@),
        hash == digest(entry@),
        filed_by_digest(*old(table)),
    ensures
        table_entries(*final(table)) == table_entries(*old(table)).insert(entry@, hash),
{
    table.inner.insert_unique(hash, entry, |entry| entry.content_hash());
}

/// `HashTable::retain`, asked to keep the entries that [`is_referenced`]
/// says are held outside the table, going by `Arc::strong_count`: no entry
/// comes in, and those that stay are filed as before.
#[verifier::external_body]
fn table_retain_referenced(table: &mut Table)
    ensures
        table_entries(*final(table)).submap_of(table_entries(*old(table))),
{
    table.inner.retain(|entry| is_referenced(Arc::strong_count(entry)));
}

/// `HashTable::iter`, with each entry turned into its `Arc::strong_count`
/// and the length of its content: one item for each entry, in no order that
/// could be named.
#[verifier::external_body]
fn table_entry_infos(table: &Table) -> (infos: Vec<EntryInfo>)
    ensures
        infos@.len() == table_entries(*table).dom().len(),
        forall|i: int| 0 <= i < infos@.len() ==> (#[trigger] infos@[i]).strong_count >= 1,
        forall|i: int| 0 <= i < infos@.len() ==> has_len(*table, (#[trigger] infos@[i]).byte_len),
        forall|content: Seq<u8>| #[trigger]
            table_entries(*table).dom().contains(content) ==> exists|i: int|
                0 <= i < infos@.len() && infos@[i].byte_len == content.len(),
{
    table.inner.iter().map(
        |entry|
            EntryInfo { strong_count: Arc::strong_count(entry), byte_len: entry.as_bytes().len() },
    ).collect()
}

/// The interning store: at most one canonical buffer for each content.
///
/// A store is materialized by its first insertion. Until then it holds
/// nothing, and [`reserve`](Store::reserve) can still tell it how much room
/// to set aside.
pub struct Store {
    table: Table,
    materialized: bool,
    capacity_hint: usize,
}

impl Store {
    #[verifier::type_invariant]
    spec fn well_formed(&self) -> bool {
        &&& filed_by_digest(self.table)
        &&& table_entries(self.table).dom().finite()
        &&& !self.materialized ==> table_entries(self.table).dom() == Set::<Seq<u8>>::empty()
    }

    /// The contents that the store holds a buffer for.
    pub closed spec fn contents(&self) -> Set<Seq<u8>> {
        table_entries(self.table).dom()
    }

    /// Whether the store has made its first insertion.
    pub closed spec fn is_materialized(&self) -> bool {
        self.materialized
    }

    /// The capacity that the store was last advised of before it was
    /// materialized.
    pub closed spec fn capacity_hint(&self) -> usize {
        self.capacity_hint
    }

    /// Whether the store has made its first insertion.
    pub fn materialized(&self) -> (materialized: bool)
        ensures
            materialized == self.is_materialized(),
    {
        self.materialized
    }

    /// The capacity that the store was last advised of before it was
    /// materialized.
    pub fn advised_capacity(&self) -> (capacity: usize)
        ensures
            capacity == self.capacity_hint(),
    {
        self.capacity_hint
    }

    /// A store that holds nothing yet.
    pub fn new() -> (store: Self)
        ensures
            store.contents() == Set::<Seq<u8>>::empty(),
            !store.is_materialized(),
            store.capacity_hint() == 0,
    {
        let table = table_with_capacity(0);
        Store { table, materialized: false, capacity_hint: 0 }
    }

    /// Advises the store of how many entries to expect. The advice is taken
    /// until the store is materialized and ignored afterwards.
    pub fn reserve(&mut self, capacity: usize)
        ensures
            final(self).contents() == old(self).contents(),
            final(self).is_materialized() == old(self).is_materialized(),
            final(self).capacity_hint() == if old(self).is_materialized() {
                old(self).capacity_hint()
            } else {
                capacity
            },
    {
        proof {
            use_type_invariant(&*self);
        }
        if !self.materialized {
            self.capacity_hint = capacity;
        }
    }

    /// The number of entries.
    pub fn len(&self) -> (len: usize)
        ensures
            self.contents().finite(),
            len == self.contents().len(),
    {
        proof {
            use_type_invariant(self);
        }
        table_len(&self.table)
    }

    /// A handle to the buffer of the joined content of `slices`, where the
    /// store holds one.
    pub fn get(&self, slices: &SlicesWrap) -> (found: Option<Arc<SliceHashWrap>>)
        ensures
            match found {
                Some(handle) => handle@ == slices@ && self.contents().contains(slices@),
                None => !self.contents().contains(slices@),
            },
    {
        proof {
            use_type_invariant(self);
        }
        let hash = slices.content_hash();
        match table_find(&self.table, hash, slices) {
            Some(entry) => Some(arc_clone(entry)),
            None => None,
        }
    }

    /// A handle to the buffer of the joined content of `slices`. Where the
    /// store holds none, it first makes one, by joining the slices, and
    /// files it.
    pub fn get_or_insert(&mut self, slices: &SlicesWrap) -> (handle: Arc<SliceHashWrap>)
        ensures
            handle@ == slices@,
            final(self).contents() == old(self).contents().insert(slices@),
            final(self).is_materialized() == (old(self).is_materialized() || !old(
                self,
            ).contents().contains(slices@)),
            final(self).capacity_hint() == old(self).capacity_hint(),
    {
        proof {
            use_type_invariant(&*self);
        }
        let hash = slices.content_hash();
        match table_find(&self.table, hash, slices) {
            Some(entry) => {
                return arc_clone(entry);
            },
            None => {},
        }
        let mut table = if self.materialized {
            self.take_table()
        } else if self.capacity_hint <= MAX_PRESIZE {
            table_with_capacity(self.capacity_hint)
        } else {
            table_with_capacity(MAX_PRESIZE)
        };
        let handle = Arc::new(SliceHashWrap::new(slices.to_boxed_slice()));
        table_insert(&mut table, hash, arc_clone(&handle));
        self.materialized = true;
        self.table = table;
        handle
    }

    /// Takes the table out of the store, which is left with an empty one.
    fn take_table(&mut self) -> (table: Table)
        ensures
            table == old(self).table,
            table_entries(final(self).table).dom() == Set::<Seq<u8>>::empty(),
            final(self).materialized == old(self).materialized,
            final(self).capacity_hint == old(self).capacity_hint,
    {
        let mut table = table_with_capacity(0);
        core::mem::swap(&mut self.table, &mut table);
        table
    }

    /// Removes every entry that no one outside the store holds a handle to,
    /// and returns how many it removed.
    pub fn remove_if_unreferenced(&mut self) -> (removed: usize)
        ensures
            final(self).contents().subset_of(old(self).contents()),
            old(self).contents().finite(),
            removed == old(self).contents().len() - final(self).contents().len(),
            final(self).is_materialized() == old(self).is_materialized(),
            final(self).capacity_hint() == old(self).capacity_hint(),
    {
        proof {
            use_type_invariant(&*self);
        }
        let mut table = self.take_table();
        let before = table_len(&table);
        let ghost entries = table_entries(table);
        table_retain_referenced(&mut table);
        proof {
            let left = table_entries(table);
            assert(left.dom().subset_of(entries.dom()));
            lemma_len_subset(left.dom(), entries.dom());
            assert(left.dom().finite()) by {
                vstd::set_lib::lemma_set_subset_finite(entries.dom(), left.dom());
            }
            if !self.materialized {
                assert(left.dom() =~= Set::<Seq<u8>>::empty());
            }
        }
        let after = table_len(&table);
        self.table = table;
        before - after
    }

    /// One [`EntryInfo`] for each entry, as a scan of the store finds them.
    pub fn entry_infos(&self) -> (infos: Vec<EntryInfo>)
        ensures
            self.contents().finite(),
            infos@.len() == self.contents().len(),
            forall|i: int|
                0 <= i < infos@.len() ==> (#[trigger] infos@[i]).strong_count >= 1 && exists|
                    content: Seq<u8>,
                |
                    self.contents().contains(content) && content.len() == infos@[i].byte_len,
            forall|content: Seq<u8>| #[trigger]
                self.contents().contains(content) ==> exists|i: int|
                    0 <= i < infos@.len() && infos@[i].byte_len == content.len(),
    {
        proof {
            use_type_invariant(self);
        }
        let infos = table_entry_infos(&self.table);
        assert forall|i: int| 0 <= i < infos@.len() implies exists|content: Seq<u8>|
            self.contents().contains(content) && content.len() == (#[trigger] infos@[i]).byte_len by {
            assert(has_len(self.table, infos@[i].byte_len));
        }
        infos
    }

    /// Figures on the entries of the store as they are now.
    pub fn snapshot_stats(&self) -> (snapshot: StatsSnapshot)
        ensures
            self.sums_up_to(snapshot) && self.reports(snapshot),
    {
        let infos = self.entry_infos();
        let snapshot = StatsSnapshot::summarize(infos.as_slice());
        proof {
            self.lemma_scan_sums_up(infos@, snapshot);
        }
        snapshot
    }

    /// `snapshot` is true of the contents of the store: `Empty` for no
    /// entries; else their number, the least and the greatest length among
    /// them, and reference counts that add up.
    pub open spec fn reports(&self, snapshot: StatsSnapshot) -> bool {
        match snapshot {
            StatsSnapshot::Empty => self.contents() == Set::<Seq<u8>>::empty(),
            StatsSnapshot::Stats {
                total,
                referenced,
                non_referenced,
                max_ref_count,
                min_ref_count,
                max_byte_len,
                min_byte_len,
            } => {
                &&& self.contents().finite()
                &&& total == self.contents().len()
                &&& total > 0
                &&& referenced + non_referenced == total
                &&& min_ref_count <= max_ref_count
                &&& (referenced == 0 <==> max_ref_count == 0)
                &&& (non_referenced == 0 <==> min_ref_count > 0)
                &&& forall|content: Seq<u8>| #[trigger]
                    self.contents().contains(content) ==> min_byte_len <= content.len()
                        <= max_byte_len
                &&& exists|content: Seq<u8>|
                    self.contents().contains(content) && content.len() == max_byte_len
                &&& exists|content: Seq<u8>|
                    self.contents().contains(content) && content.len() == min_byte_len
            },
        }
    }

    proof fn lemma_summary_reports(&self, infos: Seq<EntryInfo>, snapshot: StatsSnapshot)
        requires
            snapshot.sums_up(infos),
            self.contents().finite(),
            infos.len() == self.contents().len(),
            forall|i: int|
                0 <= i < infos.len() ==> (#[trigger] infos[i]).strong_count >= 1 && exists|
                    content: Seq<u8>,
                |
                    self.contents().contains(content) && content.len() == infos[i].byte_len,
            forall|content: Seq<u8>| #[trigger]
                self.contents().contains(content) ==> exists|i: int|
                    0 <= i < infos.len() && infos[i].byte_len == content.len(),
        ensures
            self.reports(snapshot),
    {
        match snapshot {
            StatsSnapshot::Empty => {
                assert(self.contents() =~= Set::<Seq<u8>>::empty()) by {
                    if self.contents().len() == 0 {
                        self.contents().lemma_len0_is_empty();
                    }
                }
            },
            StatsSnapshot::Stats { .. } => {
                lemma_count_referenced_bound(infos);
                lemma_count_referenced_zero(infos);
                lemma_count_referenced_all(infos);
            },
        }
    }
}

/// Interning a content that the store was asked for before adds nothing: the
/// store holds the one entry that the first call left, and the handles of
/// both calls are equal. (Equal as values: that they are one allocation
/// follows from the store holding a single entry for the content.)
pub proof fn lemma_interned_once(
    before: Store,
    between: Store,
    after: Store,
    a: SlicesWrap,
    b: SlicesWrap,
    first: Arc<SliceHashWrap>,
    second: Arc<SliceHashWrap>,
)
    requires
        a@ == b@,
        first@ == a@,
        between.contents() == before.contents().insert(a@),
        second@ == b@,
        after.contents() == between.contents().insert(b@),
    ensures
        after.contents() == between.contents(),
        after.contents().len() == between.contents().len(),
        first@ == second@,
        first == second,
{
    assert(between.contents().insert(b@) =~= between.contents());
    assert(first.0 =~= second.0);
}

/// The number that a sweep returns is zero exactly where the sweep has left
/// the store as it was, and it is never more than the number of entries that
/// there were.
pub proof fn lemma_sweep_of_nothing(before: Store, after: Store, removed: nat)
    requires
        before.contents().finite(),
        after.contents().subset_of(before.contents()),
        removed == before.contents().len() - after.contents().len(),
    ensures
        removed == 0 <==> after.contents() == before.contents(),
        removed <= before.contents().len(),
{
    lemma_len_subset(after.contents(), before.contents());
    if removed == 0 && after.contents() != before.contents() {
        vstd::set_lib::lemma_subset_equality(after.contents(), before.contents());
    }
}

/// parking_lot's raw reader-writer lock, of which nothing is known here.
#[verifier::external_type_specification]
#[verifier::external_body]
pub struct ExRawRwLock(parking_lot::RawRwLock);

/// The reader-writer lock that `parking_lot::RwLock` is an alias of. What it
/// guards is only reached through a guard.
#[verifier::external_type_specification]
#[verifier::external_body]
#[verifier::reject_recursive_types(R)]
#[verifier::reject_recursive_types(T)]
pub struct ExRwLock<R, T: ?Sized>(parking_lot::lock_api::RwLock<R, T>);

/// `RwLock::new`: a lock around `store`.
#[verifier::external_body]
fn lock_around(store: Store) -> (lock: parking_lot::RwLock<Store>) {
    parking_lot::RwLock::new(store)
}

/// `RwLock::read`: waits until no writer holds the lock, then shares it.
/// The guard that comes back gives the store to read and releases the lock
/// when it goes out of scope. A thread that holds a guard of this lock must
/// let go of it before it asks for another, or it may wait forever.
#[verifier::external_body]
fn lock_shared<'a>(lock: &'a parking_lot::RwLock<Store>) -> (guard: impl Deref<Target = Store>
    + 'a) {
    lock.read()
}

/// `RwLock::write`: waits until no one else holds the lock, then holds it
/// alone. The guard that comes back gives the store to change and releases
/// the lock when it goes out of scope. A thread that holds a guard of this
/// lock must let go of it before it asks for another, or it waits forever.
#[verifier::external_body]
fn lock_exclusive<'a>(lock: &'a parking_lot::RwLock<Store>) -> (guard: impl DerefMut<
    Target = Store,
> + 'a) {
    lock.write()
}

/// The deduplicating pool: a reference to a [`Store`] that any number of
/// threads may share.
///
/// Clones of a pool refer to the same store, and pools made by
/// [`new`](GlobalPool::new) each have a store of their own: a program that
/// wants one pool for all its strings makes one and hands out clones.
///
/// Lookups share the lock of the store; insertion and reclamation hold it
/// alone. What another thread does to the store between two calls is not
/// known, so the contracts here speak of what a call returns; what a call
/// does to the store is stated in [`Store`].
pub struct GlobalPool {
    store: Arc<parking_lot::RwLock<Store>>,
}

impl Clone for GlobalPool {
    fn clone(&self) -> (pool: Self) {
        GlobalPool { store: arc_clone(&self.store) }
    }
}

impl GlobalPool {
    /// A pool with a store of its own, which holds nothing yet.
    pub fn new() -> (pool: Self) {
        GlobalPool { store: Arc::new(lock_around(Store::new())) }
    }

    /// A handle to the buffer of the joined content of `slices`, where the
    /// store holds one. Nothing is inserted.
    pub fn get(&self, slices: SlicesWrap) -> (found: Option<Arc<SliceHashWrap>>)
        ensures
            found matches Some(handle) ==> handle@ == slices@,
    {
        let guard = lock_shared(&self.store);
        guard.deref().get(&slices)
    }

    /// Removes from the store, while holding its lock alone, every entry
    /// that no one outside the store holds a handle to, and returns how many
    /// it removed.
    pub fn remove_if_unreferenced(&self) -> (removed: usize) {
        let mut guard = lock_exclusive(&self.store);
        guard.deref_mut().remove_if_unreferenced()
    }

    /// Figures on the entries of the store, taken while sharing its lock.
    pub fn snapshot_stats(&self) -> (snapshot: StatsSnapshot)
        ensures
            exists|store: Store| #[trigger] store.sums_up_to(snapshot),
            snapshot.is_sound(),
    {
        let guard = lock_shared(&self.store);
        let store = guard.deref();
        let snapshot = store.snapshot_stats();
        proof {
            assert(store.sums_up_to(snapshot));
            lemma_reported_is_sound(store, snapshot);
        }
        snapshot
    }
}

impl Store {
    /// `infos` is what a scan of the store may find: one item for each
    /// entry, in any order, each with the length of its entry's content and
    /// with a count of handles that includes the store's own.
    #[verifier::opaque]
    pub open spec fn scans_as(&self, infos: Seq<EntryInfo>) -> bool {
        &&& self.contents().finite()
        &&& infos.len() == self.contents().len()
        &&& forall|i: int|
            0 <= i < infos.len() ==> (#[trigger] infos[i]).strong_count >= 1 && exists|
                content: Seq<u8>,
            |
                self.contents().contains(content) && content.len() == infos[i].byte_len
        &&& forall|content: Seq<u8>| #[trigger]
            self.contents().contains(content) ==> exists|i: int|
                0 <= i < infos.len() && infos[i].byte_len == content.len()
    }

    /// `snapshot` sums up a scan of the store.
    pub open spec fn sums_up_to(&self, snapshot: StatsSnapshot) -> bool {
        exists|infos: Seq<EntryInfo>| #[trigger] self.scans_as(infos) && snapshot.sums_up(infos)
    }

    /// What [`entry_infos`](Store::entry_infos) returns is a scan of the
    /// store.
    pub proof fn lemma_infos_are_a_scan(&self, infos: Seq<EntryInfo>)
        requires
            self.contents().finite(),
            infos.len() == self.contents().len(),
            forall|i: int|
                0 <= i < infos.len() ==> (#[trigger] infos[i]).strong_count >= 1 && exists|
                    content: Seq<u8>,
                |
                    self.contents().contains(content) && content.len() == infos[i].byte_len,
            forall|content: Seq<u8>| #[trigger]
                self.contents().contains(content) ==> exists|i: int|
                    0 <= i < infos.len() && infos[i].byte_len == content.len(),
        ensures
            self.scans_as(infos),
    {
        reveal(Store::scans_as);
    }

    /// What sums up a scan of the store is true of its contents.
    pub proof fn lemma_sum_reports(&self, snapshot: StatsSnapshot)
        requires
            self.sums_up_to(snapshot),
        ensures
            self.reports(snapshot),
    {
        let infos = choose|infos: Seq<EntryInfo>| #[trigger]
            self.scans_as(infos) && snapshot.sums_up(infos);
        self.lemma_scan_reports(infos, snapshot);
    }

    proof fn lemma_scan_reports(&self, infos: Seq<EntryInfo>, snapshot: StatsSnapshot)
        requires
            self.scans_as(infos),
            snapshot.sums_up(infos),
        ensures
            self.reports(snapshot),
    {
        reveal(Store::scans_as);
        self.lemma_summary_reports(infos, snapshot);
    }

    proof fn lemma_scan_sums_up(&self, infos: Seq<EntryInfo>, snapshot: StatsSnapshot)
        requires
            snapshot.sums_up(infos),
            self.contents().finite(),
            infos.len() == self.contents().len(),
            forall|i: int|
                0 <= i < infos.len() ==> (#[trigger] infos[i]).strong_count >= 1 && exists|
                    content: Seq<u8>,
                |
                    self.contents().contains(content) && content.len() == infos[i].byte_len,
            forall|content: Seq<u8>| #[trigger]
                self.contents().contains(content) ==> exists|i: int|
                    0 <= i < infos.len() && infos[i].byte_len == content.len(),
        ensures
            self.sums_up_to(snapshot),
            self.reports(snapshot),
    {
        self.lemma_infos_are_a_scan(infos);
        self.lemma_summary_reports(infos, snapshot);
    }
}

/// What a store reports of itself is sound.
pub proof fn lemma_reported_is_sound(store: &Store, snapshot: StatsSnapshot)
    requires
        store.reports(snapshot),
    ensures
        snapshot.is_sound(),
{
}

impl Pool for GlobalPool {
    type Raw = Arc<SliceHashWrap>;

    open spec fn raw_view(raw: &Arc<SliceHashWrap>) -> Seq<u8> {
        raw@
    }

    /// Looks the content up while sharing the lock. Only where that finds
    /// nothing does it take the lock alone, and then it looks again before
    /// it inserts: another thread may have inserted the same content in
    /// between.
    fn raw_from_slices(&self, slices: SlicesWrap) -> (raw: Arc<SliceHashWrap>) {
        let found = {
            let guard = lock_shared(&self.store);
            guard.deref().get(&slices)
        };
        match found {
            Some(raw) => raw,
            None => {
                let mut guard = lock_exclusive(&self.store);
                guard.deref_mut().get_or_insert(&slices)
            },
        }
    }

    fn raw_to_slice<'r>(&self, raw: &'r Arc<SliceHashWrap>) -> (bytes: &'r [u8]) {
        raw.as_bytes()
    }

    fn raw_clone(&self, raw: &Arc<SliceHashWrap>) -> (copy: Arc<SliceHashWrap>) {
        arc_clone(raw)
    }

    /// Passes the advice on to the store, which takes it until its first
    /// insertion.
    fn reserve(&self, capacity: usize) {
        let mut guard = lock_exclusive(&self.store);
        guard.deref_mut().reserve(capacity);
    }
}

} // verus!
