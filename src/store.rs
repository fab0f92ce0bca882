//! The metering store: one packed cell per (command name, pid), bounded, evicting
//! the least recently used cell when a new one does not fit.
use vstd::prelude::*;
use lru::LruCache;
use std::collections::hash_map::RandomState;
use crate::event::{COMMAND_LENGTH, MAX_PROCESS_COUNT};

verus! {

#[verifier::external_type_specification]
#[verifier::external_body]
#[verifier::reject_recursive_types(K)]
#[verifier::reject_recursive_types(V)]
#[verifier::reject_recursive_types(S)]
pub struct ExLruCache<K, V, S>(LruCache<K, V, S>);

/// The cache that holds the cells.
pub type CellCache = LruCache<CellKey, u64, RandomState>;

/// Cells by the view of their key.
pub type CellMap = Map<(Seq<u8>, u32), u64>;

/// A cell's key: the stored command name and the pid.
pub type CellKey = ([u8; COMMAND_LENGTH], u32);

/// The cells that `cache` holds, by name and pid.
pub uninterp spec fn lru_cells(cache: CellCache) -> CellMap;

/// The number of cells that `cache` was made to hold.
pub uninterp spec fn lru_capacity(cache: CellCache) -> nat;

/// The keys of `cache`, most recently used first.
pub uninterp spec fn lru_recency(cache: CellCache) -> Seq<(Seq<u8>, u32)>;

pub open spec fn key_view(key: CellKey) -> (Seq<u8>, u32) {
    (key.0@, key.1)
}

/// A recency order after a use of `key`: the key moves to the front.
pub open spec fn touched(order: Seq<(Seq<u8>, u32)>, key: (Seq<u8>, u32)) -> Seq<(Seq<u8>, u32)> {
    seq![key] + order.remove_value(key)
}

/// Relies on `lru::LruCache::with_hasher`: an empty cache that holds at most `cap`
/// entries.
#[verifier::external_body]
fn lru_new(cap: usize) -> (r: CellCache)
    requires
        cap > 0,
    ensures
        lru_cells(r) == CellMap::empty(),
        lru_capacity(r) == cap,
        lru_recency(r) == Seq::<(Seq<u8>, u32)>::empty(),
{
    LruCache::with_hasher(std::num::NonZeroUsize::new(cap).unwrap(), RandomState::new())
}

/// Relies on `lru::LruCache::get`: the value stored under the key, if any; a key
/// found moves to the front of the recency order, and nothing else changes.
#[verifier::external_body]
fn lru_get(cache: &mut CellCache, key: &CellKey) -> (r: Option<u64>)
    ensures
        r == if lru_cells(*old(cache)).contains_key(key_view(*key)) {
            Some(lru_cells(*old(cache))[key_view(*key)])
        } else {
            None
        },
        lru_cells(*final(cache)) == lru_cells(*old(cache)),
        lru_capacity(*final(cache)) == lru_capacity(*old(cache)),
        lru_recency(*final(cache)) == if lru_cells(*old(cache)).contains_key(key_view(*key)) {
            touched(lru_recency(*old(cache)), key_view(*key))
        } else {
            lru_recency(*old(cache))
        },
{
    cache.get(key).copied()
}

/// Relies on `lru::LruCache::put`: the key then holds the value and moves to the
/// front of the recency order; a key already there is updated in place; a new key is
/// added, and when the cache was full the entry at the back of the recency order,
/// the least recently used, is dropped to make room.
#[verifier::external_body]
fn lru_put(cache: &mut CellCache, key: CellKey, value: u64)
    requires
        lru_capacity(*old(cache)) > 0,
        lru_cells(*old(cache)).dom().finite(),
        lru_cells(*old(cache)).dom().len() <= lru_capacity(*old(cache)),
    ensures
        lru_capacity(*final(cache)) == lru_capacity(*old(cache)),
        ({
            let before = lru_cells(*old(cache));
            let after = lru_cells(*final(cache));
            let k = key_view(key);
            let order = lru_recency(*old(cache));
            if before.contains_key(k) || before.dom().len() < lru_capacity(*old(cache)) {
                &&& after == before.insert(k, value)
                &&& lru_recency(*final(cache)) == touched(order, k)
            } else {
                let gone = order.last();
                &&& order.len() > 0
                &&& before.contains_key(gone)
                &&& after == before.remove(gone).insert(k, value)
                &&& lru_recency(*final(cache)) == seq![k] + order.drop_last()
            }
        }),
{
    cache.put(key, value);
}

/// Packed cells by (name, pid), at most `MAX_PROCESS_COUNT` of them.
pub struct MeterStore {
    cells: CellCache,
}

impl MeterStore {
    pub closed spec fn view(&self) -> CellMap {
        lru_cells(self.cells)
    }

    /// The keys of the store, most recently used first.
    pub closed spec fn recency(&self) -> Seq<(Seq<u8>, u32)> {
        lru_recency(self.cells)
    }

    pub closed spec fn wf(&self) -> bool {
        &&& lru_capacity(self.cells) == MAX_PROCESS_COUNT
        &&& self@.dom().finite()
        &&& self@.dom().len() <= MAX_PROCESS_COUNT
    }

    /// The store holds at most `MAX_PROCESS_COUNT` cells.
    pub proof fn law_bounded(&self)
        requires
            self.wf(),
        ensures
            self@.dom().finite(),
            self@.dom().len() <= MAX_PROCESS_COUNT,
    {
    }

    pub fn new() -> (r: MeterStore)
        ensures
            r.wf(),
            r@ == CellMap::empty(),
            r.recency() == Seq::<(Seq<u8>, u32)>::empty(),
    {
        MeterStore { cells: lru_new(MAX_PROCESS_COUNT) }
    }

    /// The cell of `key`, if the store holds one.
    pub fn get(&mut self, key: &CellKey) -> (r: Option<u64>)
        requires
            old(self).wf(),
        ensures
            final(self).wf(),
            final(self)@ == old(self)@,
            r == if old(self)@.contains_key(key_view(*key)) {
                Some(old(self)@[key_view(*key)])
            } else {
                None
            },
            final(self).recency() == if old(self)@.contains_key(key_view(*key)) {
                touched(old(self).recency(), key_view(*key))
            } else {
                old(self).recency()
            },
    {
        lru_get(&mut self.cells, key)
    }

    /// Stores `cell` under `key`, which becomes the most recently used. A key already
    /// there is updated, and a new key is added; when the store is full and the key is
    /// new, exactly one other cell goes: the least recently used.
    pub fn put(&mut self, key: CellKey, cell: u64)
        requires
            old(self).wf(),
        ensures
            final(self).wf(),
            final(self)@.dom().len() <= MAX_PROCESS_COUNT,
            old(self)@.contains_key(key_view(key)) || old(self)@.dom().len() < MAX_PROCESS_COUNT
                ==> final(self)@ == old(self)@.insert(key_view(key), cell) && final(self).recency()
                == touched(old(self).recency(), key_view(key)),
            !old(self)@.contains_key(key_view(key)) && old(self)@.dom().len() >= MAX_PROCESS_COUNT
                ==> ({
                let gone = old(self).recency().last();
                &&& old(self).recency().len() > 0
                &&& old(self)@.contains_key(gone)
                &&& final(self)@ == old(self)@.remove(gone).insert(key_view(key), cell)
                &&& final(self).recency() == seq![key_view(key)] + old(self).recency().drop_last()
            }),
    {
        lru_put(&mut self.cells, key, cell);
        proof {
            let before = old(self)@;
            let k = key_view(key);
            if !(before.contains_key(k) || before.dom().len() < MAX_PROCESS_COUNT) {
                let gone = old(self).recency().last();
                assert(self@.dom() =~= before.dom().remove(gone).insert(k));
                assert(before.dom().remove(gone).len() == before.dom().len() - 1);
            } else if !before.contains_key(k) {
                assert(self@.dom() =~= before.dom().insert(k));
            } else {
                assert(self@.dom() =~= before.dom());
            }
        }
    }
}

} // verus!
