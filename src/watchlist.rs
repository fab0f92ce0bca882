//! The watchlist: which command names are metered, and against which limits.
use vstd::prelude::*;
use crate::event::{StaticCommandName, Threshold, MAX_PROCESS_COUNT};

verus! {

/// The watchlist already holds `MAX_PROCESS_COUNT` names and the name is new.
#[derive(Clone, Copy, Debug, PartialEq, Eq, Structural)]
pub struct WatchlistFull;

/// The watchlist after an attempt to watch `name` with `threshold`: `None` when the
/// name is new and the watchlist is full.
pub open spec fn insert_result(w: Map<Seq<u8>, Threshold>, name: Seq<u8>, threshold: Threshold) -> Option<
    Map<Seq<u8>, Threshold>,
> {
    if !w.contains_key(name) && w.dom().len() >= MAX_PROCESS_COUNT {
        None
    } else {
        Some(w.insert(name, threshold))
    }
}

/// The watchlist after it is cleared.
pub open spec fn cleared(w: Map<Seq<u8>, Threshold>) -> Map<Seq<u8>, Threshold> {
    Map::empty()
}

/// A bounded map from command name to limits.
pub struct Watchlist {
    entries: Vec<(StaticCommandName, Threshold)>,
    model: Ghost<Map<Seq<u8>, Threshold>>,
}

impl Watchlist {
    /// The names watched, each with its limits.
    pub closed spec fn view(&self) -> Map<Seq<u8>, Threshold> {
        self.model@
    }

    pub closed spec fn wf(&self) -> bool {
        &&& self.entries@.len() <= MAX_PROCESS_COUNT
        &&& forall|i: int, j: int|
            0 <= i < j < self.entries@.len() ==> (#[trigger] self.entries@[i]).0.view() != (
            #[trigger] self.entries@[j]).0.view()
        &&& forall|i: int|
            0 <= i < self.entries@.len() ==> self.model@.contains_key(
                (#[trigger] self.entries@[i]).0.view(),
            ) && self.model@[self.entries@[i].0.view()] == self.entries@[i].1
        &&& forall|k: Seq<u8>|
            #[trigger] self.model@.contains_key(k) ==> exists|i: int|
                0 <= i < self.entries@.len() && (#[trigger] self.entries@[i]).0.view() == k
        &&& self.model@.dom().finite()
        &&& self.model@.dom().len() == self.entries@.len()
    }

    pub fn new() -> (r: Watchlist)
        ensures
            r.wf(),
            r@ == Map::<Seq<u8>, Threshold>::empty(),
    {
        Watchlist { entries: Vec::new(), model: Ghost(Map::empty()) }
    }

    /// Number of names watched.
    pub fn len(&self) -> (r: usize)
        requires
            self.wf(),
        ensures
            r == self@.dom().len(),
    {
        self.entries.len()
    }

    fn find(&self, name: &StaticCommandName) -> (r: Option<usize>)
        requires
            self.wf(),
        ensures
            r is Some ==> r->0 < self.entries@.len() && self.entries@[r->0 as int].0.view()
                == name.view(),
            r is None ==> !self@.contains_key(name.view()),
    {
        let mut i: usize = 0;
        while i < self.entries.len()
            invariant
                i <= self.entries@.len(),
                forall|j: int| 0 <= j < i ==> (#[trigger] self.entries@[j]).0.view() != name.view(),
            decreases self.entries@.len() - i,
        {
            if self.entries[i].0.same(name) {
                return Some(i);
            }
            i = i + 1;
        }
        None
    }

    /// The limits of `name`, if it is watched.
    pub fn get(&self, name: &StaticCommandName) -> (r: Option<Threshold>)
        requires
            self.wf(),
        ensures
            r == if self@.contains_key(name.view()) {
                Some(self@[name.view()])
            } else {
                None
            },
    {
        match self.find(name) {
            Some(i) => Some(self.entries[i].1),
            None => None,
        }
    }

    /// Watches `name` with `threshold`, replacing its earlier limits. Fails, changing
    /// nothing, when the name is new and the watchlist is full.
    pub fn insert(&mut self, name: StaticCommandName, threshold: Threshold) -> (r: Result<(), WatchlistFull>)
        requires
            old(self).wf(),
        ensures
            final(self).wf(),
            r is Ok <==> insert_result(old(self)@, name.view(), threshold) is Some,
            r is Ok ==> final(self)@ == insert_result(old(self)@, name.view(), threshold)->0,
            r is Err ==> final(self)@ == old(self)@,
    {
        match self.find(&name) {
            Some(i) => {
                let ghost before = self.entries@;
                self.entries.set(i, (name, threshold));
                self.model = Ghost(self.model@.insert(name.view(), threshold));
                proof {
                    assert forall|k: Seq<u8>| #[trigger] self.model@.contains_key(k) implies exists|j: int|
                        0 <= j < self.entries@.len() && (#[trigger] self.entries@[j]).0.view() == k by {
                        if k != name.view() {
                            let j = choose|j: int| 0 <= j < before.len() && (#[trigger] before[j]).0.view() == k;
                            assert(self.entries@[j].0.view() == k);
                        } else {
                            assert(self.entries@[i as int].0.view() == k);
                        }
                    }
                    assert(self.model@.dom() =~= old(self).model@.dom());
                }
                Ok(())
            },
            None => {
                if self.entries.len() >= MAX_PROCESS_COUNT {
                    return Err(WatchlistFull);
                }
                let ghost before = self.entries@;
                self.entries.push((name, threshold));
                self.model = Ghost(self.model@.insert(name.view(), threshold));
                proof {
                    assert forall|k: Seq<u8>| #[trigger] self.model@.contains_key(k) implies exists|j: int|
                        0 <= j < self.entries@.len() && (#[trigger] self.entries@[j]).0.view() == k by {
                        if k != name.view() {
                            let j = choose|j: int| 0 <= j < before.len() && (#[trigger] before[j]).0.view() == k;
                            assert(self.entries@[j].0.view() == k);
                        } else {
                            assert(self.entries@[before.len() as int].0.view() == k);
                        }
                    }
                    assert(!old(self).model@.dom().contains(name.view()));
                    assert(self.model@.dom() =~= old(self).model@.dom().insert(name.view()));
                }
                Ok(())
            },
        }
    }

    /// Stops watching `name`; nothing happens if it was not watched.
    pub fn remove(&mut self, name: &StaticCommandName)
        requires
            old(self).wf(),
        ensures
            final(self).wf(),
            final(self)@ == old(self)@.remove(name.view()),
    {
        match self.find(name) {
            Some(i) => {
                let ghost before = self.entries@;
                self.entries.remove(i);
                self.model = Ghost(self.model@.remove(name.view()));
                proof {
                    assert forall|j: int|
                        0 <= j < self.entries@.len() implies self.model@.contains_key(
                            (#[trigger] self.entries@[j]).0.view(),
                        ) && self.model@[self.entries@[j].0.view()] == self.entries@[j].1 by {
                        if j < i {
                            assert(self.entries@[j] == before[j]);
                        } else {
                            assert(self.entries@[j] == before[j + 1]);
                        }
                    }
                    assert forall|a: int, b: int|
                        0 <= a < b < self.entries@.len() implies (#[trigger] self.entries@[a]).0.view() != (
                        #[trigger] self.entries@[b]).0.view() by {
                        let a0 = if a < i { a } else { a + 1 };
                        let b0 = if b < i { b } else { b + 1 };
                        assert(self.entries@[a] == before[a0]);
                        assert(self.entries@[b] == before[b0]);
                    }
                    assert forall|k: Seq<u8>| #[trigger] self.model@.contains_key(k) implies exists|j: int|
                        0 <= j < self.entries@.len() && (#[trigger] self.entries@[j]).0.view() == k by {
                        let j = choose|j: int| 0 <= j < before.len() && (#[trigger] before[j]).0.view() == k;
                        assert(j != i);
                        if j < i {
                            assert(self.entries@[j] == before[j]);
                        } else {
                            assert(self.entries@[j - 1] == before[j]);
                        }
                    }
                    assert(self.model@.dom() =~= old(self).model@.dom().remove(name.view()));
                }
            },
            None => {
                assert(self.model@ =~= self.model@.remove(name.view()));
            },
        }
    }

    /// Stops watching every name.
    pub fn clear(&mut self)
        requires
            old(self).wf(),
        ensures
            final(self).wf(),
            final(self)@ == cleared(old(self)@),
    {
        self.entries.clear();
        self.model = Ghost(Map::empty());
    }
}

/// Watching `name` twice, first with `first` and then with `second`, leaves one
/// entry for it, holding `second`; clearing twice leaves what clearing once leaves.
pub proof fn law_watchlist_idempotence(
    w: Map<Seq<u8>, Threshold>,
    name: Seq<u8>,
    first: Threshold,
    second: Threshold,
)
    requires
        insert_result(w, name, first) is Some,
    ensures
        insert_result(insert_result(w, name, first)->0, name, second) == Some(
            w.insert(name, second),
        ),
        cleared(cleared(w)) == cleared(w),
{
    assert(w.insert(name, first).insert(name, second) =~= w.insert(name, second));
}

} // verus!
