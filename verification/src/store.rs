//! The durable backing store: a counter cell and a byte-record table.
//!
//! The service depends only on this narrow interface — get/insert/remove on a
//! `u64 -> bytes` table plus a durable `u64` counter — and this module is its
//! only trusted boundary.  Both regions live in stable memory managed by
//! `ic_stable_structures`; their abstract contents are named by
//! [`store_records`] and [`store_counter`], and each wrapper states over those
//! names what the backing structure does.

use vstd::prelude::*;

verus! {

/// The two durable regions, carved out of one stable memory by a memory
/// manager: a cell holding the id counter, and a B-tree table mapping a job
/// id to the serialized record stored under it.
#[verifier::external_body]
pub struct StableStore {
    counter: ic_stable_structures::cell::Cell<
        u64,
        ic_stable_structures::memory_manager::VirtualMemory<
            ic_stable_structures::DefaultMemoryImpl,
        >,
    >,
    table: ic_stable_structures::btreemap::BTreeMap<
        u64,
        Vec<u8>,
        ic_stable_structures::memory_manager::VirtualMemory<
            ic_stable_structures::DefaultMemoryImpl,
        >,
    >,
}

/// The records held by the table: each present key maps to the bytes last
/// inserted under it.
pub uninterp spec fn store_records(s: StableStore) -> Map<u64, Seq<u8>>;

/// The value held by the counter cell.
pub uninterp spec fn store_counter(s: StableStore) -> u64;

/// The contents of a table with no entries.
pub open spec fn empty_records() -> Map<u64, Seq<u8>> {
    Map::<u64, Seq<u8>>::empty()
}

impl StableStore {
    /// Relies on MemoryManager::init, Cell::init and BTreeMap::init of
    /// ic-stable-structures: on a freshly created memory the cell holds the
    /// given initial value and the table holds no entries.
    #[verifier::external_body]
    pub fn new() -> (s: StableStore)
        ensures
            store_records(s) == empty_records(),
            store_counter(s) == 0u64,
    {
        let manager = ic_stable_structures::memory_manager::MemoryManager::init(
            ic_stable_structures::DefaultMemoryImpl::default(),
        );
        let counter = ic_stable_structures::cell::Cell::init(
            manager.get(ic_stable_structures::memory_manager::MemoryId::new(0)),
            0,
        );
        let table = ic_stable_structures::btreemap::BTreeMap::init(
            manager.get(ic_stable_structures::memory_manager::MemoryId::new(1)),
        );
        StableStore { counter, table }
    }

    /// Relies on Cell::get of ic-stable-structures: returns the stored value.
    #[verifier::external_body]
    pub(crate) fn counter_get(&self) -> (v: u64)
        ensures
            v == store_counter(*self),
    {
        *self.counter.get()
    }

    /// Relies on Cell::set of ic-stable-structures: replaces the stored
    /// value; the table is untouched.  Aborts the process if the cell cannot
    /// be persisted.
    #[verifier::external_body]
    pub(crate) fn counter_set(&mut self, v: u64)
        ensures
            store_counter(*final(self)) == v,
            store_records(*final(self)) == store_records(*old(self)),
    {
        self.counter.set(v);
    }

    /// Relies on BTreeMap::get of ic-stable-structures: returns the value
    /// stored under the key, or nothing when the key is absent.
    #[verifier::external_body]
    pub(crate) fn table_get(&self, id: u64) -> (r: Option<Vec<u8>>)
        ensures
            r matches Some(v) ==> store_records(*self).contains_key(id) && v@ == store_records(
                *self,
            )[id],
            r is None ==> !store_records(*self).contains_key(id),
    {
        self.table.get(&id)
    }

    /// Relies on BTreeMap::insert of ic-stable-structures: maps the key to
    /// the value and returns the value it replaced, if any; the counter is
    /// untouched.
    #[verifier::external_body]
    pub(crate) fn table_insert(&mut self, id: u64, v: Vec<u8>) -> (prev: Option<Vec<u8>>)
        ensures
            store_records(*final(self)) == store_records(*old(self)).insert(id, v@),
            store_counter(*final(self)) == store_counter(*old(self)),
            prev matches Some(p) ==> store_records(*old(self)).contains_key(id) && p@
                == store_records(*old(self))[id],
            prev is None ==> !store_records(*old(self)).contains_key(id),
    {
        self.table.insert(id, v)
    }

    /// Relies on BTreeMap::remove of ic-stable-structures: removes the key
    /// and returns the value stored under it, if any; the counter is
    /// untouched.
    #[verifier::external_body]
    pub(crate) fn table_remove(&mut self, id: u64) -> (prev: Option<Vec<u8>>)
        ensures
            store_records(*final(self)) == store_records(*old(self)).remove(id),
            store_counter(*final(self)) == store_counter(*old(self)),
            prev matches Some(p) ==> store_records(*old(self)).contains_key(id) && p@
                == store_records(*old(self))[id],
            prev is None ==> !store_records(*old(self)).contains_key(id),
    {
        self.table.remove(&id)
    }
}

} // verus!
