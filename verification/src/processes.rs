use vstd::prelude::*;

use std::collections::HashMap;

verus! {

broadcast use vstd::std_specs::hash::group_hash_axioms;

/// What is kept about one process, with the round in which it was last seen.
pub struct ProcessEntry<T> {
    pub version: u64,
    pub data: T,
}

/// Per-process state that lives as long as the process shows up in the
/// periodic scans: each scan is a round, and what a round does not see is
/// dropped at its end.
pub struct ProcessTable<T> {
    entries: HashMap<u32, ProcessEntry<T>>,
    version: u64,
}

/// The entries of `m` seen in round `version`.
pub open spec fn seen_in<T>(m: Map<u32, ProcessEntry<T>>, version: u64) -> Map<u32, ProcessEntry<T>> {
    Map::new(|pid: u32| m.contains_key(pid) && m[pid].version == version, |pid: u32| m[pid])
}

impl<T> View for ProcessTable<T> {
    /// The entries by process id, and the current round.
    type V = (Map<u32, ProcessEntry<T>>, u64);

    closed spec fn view(&self) -> (Map<u32, ProcessEntry<T>>, u64) {
        (self.entries@, self.version)
    }
}

impl<T> ProcessTable<T> {
    /// The current round.
    pub open spec fn round(&self) -> u64 {
        self@.1
    }

    /// The table's invariant: no entry is from a later round than the current one.
    pub open spec fn wf(&self) -> bool {
        forall|pid: u32| #[trigger] self@.0.contains_key(pid) ==> self@.0[pid].version <= self@.1
    }

    /// An empty table, before the first round.
    pub fn new() -> (table: Self)
        ensures
            table.wf(),
            table@.0 == Map::<u32, ProcessEntry<T>>::empty(),
            table.round() == 0,
    {
        ProcessTable { entries: HashMap::new(), version: 0 }
    }

    /// The number of the current round.
    pub fn current_round(&self) -> (round: u64)
        ensures
            round == self.round(),
    {
        self.version
    }

    /// Starts a new round: every entry is then from an earlier round.
    pub fn begin_round(&mut self)
        requires
            old(self).wf(),
            old(self).round() < u64::MAX,
        ensures
            final(self).wf(),
            final(self)@.0 == old(self)@.0,
            final(self).round() == old(self).round() + 1,
            forall|pid: u32| #[trigger]
                final(self)@.0.contains_key(pid) ==> final(self)@.0[pid].version < final(self).round(),
    {
        self.version = self.version + 1;
        proof {
            assert forall|p: u32| #[trigger] self@.0.contains_key(p) implies self@.0[p].version
                < self@.1 by {
                assert(old(self)@.0.contains_key(p));
            }
        }
    }

    /// The state kept for `pid`, if any.
    pub fn get(&self, pid: u32) -> (data: Option<&T>)
        ensures
            self@.0.contains_key(pid) ==> data == Some(&self@.0[pid].data),
            !self@.0.contains_key(pid) ==> data == None::<&T>,
    {
        match self.entries.get(&pid) {
            Some(entry) => Some(&entry.data),
            None => None,
        }
    }

    /// Takes the state kept for `pid` out of the table, if there is any.
    pub fn take(&mut self, pid: u32) -> (data: Option<T>)
        requires
            old(self).wf(),
        ensures
            final(self).wf(),
            final(self).round() == old(self).round(),
            final(self)@.0 == old(self)@.0.remove(pid),
            old(self)@.0.contains_key(pid) ==> data == Some(old(self)@.0[pid].data),
            !old(self)@.0.contains_key(pid) ==> data == None::<T>,
    {
        let removed = self.entries.remove(&pid);
        proof {
            assert forall|p: u32| #[trigger] self@.0.contains_key(p) implies self@.0[p].version
                <= self@.1 by {
                assert(old(self)@.0.contains_key(p));
            }
        }
        match removed {
            Some(entry) => Some(entry.data),
            None => None,
        }
    }

    /// Stores the state of `pid` as seen in the current round.
    pub fn put(&mut self, pid: u32, data: T)
        requires
            old(self).wf(),
        ensures
            final(self).wf(),
            final(self).round() == old(self).round(),
            final(self)@.0 == old(self)@.0.insert(
                pid,
                ProcessEntry { version: old(self).round(), data },
            ),
    {
        let version = self.version;
        self.entries.insert(pid, ProcessEntry { version, data });
        proof {
            assert forall|p: u32| #[trigger] self@.0.contains_key(p) implies self@.0[p].version
                <= self@.1 by {
                if p != pid {
                    assert(old(self)@.0.contains_key(p));
                }
            }
        }
    }

    /// Ends the round: drops every process that it did not see.
    pub fn sweep(&mut self)
        requires
            old(self).wf(),
        ensures
            final(self).wf(),
            final(self).round() == old(self).round(),
            final(self)@.0 == seen_in(old(self)@.0, old(self).round()),
    {
        let version = self.version;
        let ghost before = self.entries@;
        let mut stale: Vec<u32> = Vec::new();
        for (pid, entry) in it: self.entries.iter()
            invariant
                self.entries@ == before,
                self.version == version,
                forall|p: u32| #[trigger]
                    before.contains_key(p) ==> it.seq().contains((&p, &before[p])),
                forall|i: int|
                    0 <= i < stale@.len() ==> before.contains_key(#[trigger] stale@[i])
                        && before[stale@[i]].version != version,
                forall|j: int|
                    0 <= j < it.index() ==> (#[trigger] it.seq()[j]).1.version != version
                        ==> stale@.contains(*it.seq()[j].0),
            ensures
                forall|i: int|
                    0 <= i < stale@.len() ==> before.contains_key(#[trigger] stale@[i])
                        && before[stale@[i]].version != version,
                forall|p: u32|
                    before.contains_key(p) && before[p].version != version ==> #[trigger] stale@.contains(p),
        {
            let ghost k = it.index();
            let ghost old_stale = stale@;
            if entry.version != version {
                stale.push(*pid);
            }
            proof {
                assert(it.seq()[k] == (pid, entry));
                assert forall|j: int|
                    0 <= j < k + 1 && (#[trigger] it.seq()[j]).1.version != version implies stale@.contains(
                    *it.seq()[j].0,
                ) by {
                    if j == k {
                        assert(stale@[stale@.len() - 1] == *pid);
                    } else {
                        assert(old_stale.contains(*it.seq()[j].0));
                        let i = choose|i: int| 0 <= i < old_stale.len() && old_stale[i] == *it.seq()[j].0;
                        assert(stale@[i] == old_stale[i]);
                    }
                }
                assert forall|p: u32|
                    k + 1 == it.seq().len() && before.contains_key(p) && before[p].version != version
                    implies #[trigger] stale@.contains(p) by {
                    assert(it.seq().contains((&p, &before[p])));
                    let j = choose|j: int| 0 <= j < it.seq().len() && it.seq()[j] == (&p, &before[p]);
                    assert(it.seq()[j].1.version != version);
                }
            }
        }
        let mut i: usize = 0;
        while i < stale.len()
            invariant
                i <= stale@.len(),
                self.version == version,
                forall|k: int|
                    0 <= k < stale@.len() ==> before.contains_key(#[trigger] stale@[k])
                        && before[stale@[k]].version != version,
                forall|p: u32|
                    before.contains_key(p) && before[p].version != version ==> #[trigger] stale@.contains(p),
                forall|p: u32| #[trigger]
                    self.entries@.contains_key(p) <==> (before.contains_key(p) && forall|k: int|
                        0 <= k < i ==> #[trigger] stale@[k] != p),
                forall|p: u32| #[trigger]
                    self.entries@.contains_key(p) ==> self.entries@[p] == before[p],
            decreases stale@.len() - i,
        {
            let pid = stale[i];
            self.entries.remove(&pid);
            i = i + 1;
        }
        proof {
            assert forall|p: u32| #[trigger] self.entries@.contains_key(p) <==> (before.contains_key(p)
                && before[p].version == version) by {
                if before.contains_key(p) && before[p].version != version {
                    assert(stale@.contains(p));
                    let k = choose|k: int| 0 <= k < stale@.len() && stale@[k] == p;
                    assert(stale@[k] == p);
                }
                if self.entries@.contains_key(p) {
                    assert(before.contains_key(p));
                    if before[p].version != version {
                        assert(stale@.contains(p));
                        let k = choose|k: int| 0 <= k < stale@.len() && stale@[k] == p;
                        assert(stale@[k] == p);
                    }
                }
                if before.contains_key(p) && before[p].version == version {
                    assert forall|k: int| 0 <= k < stale@.len() implies #[trigger] stale@[k] != p by {
                    }
                }
            }
            assert(self.entries@ =~= seen_in(before, version));
            assert forall|p: u32| #[trigger] self@.0.contains_key(p) implies self@.0[p].version
                <= self@.1 by {
            }
        }
    }
}

/// A round keeps exactly what it stored: when every entry is from an earlier
/// round and the round stores `stored`, ending the round leaves `stored`.
pub proof fn lemma_round_keeps_stored<T>(
    before: Map<u32, ProcessEntry<T>>,
    stored: Map<u32, ProcessEntry<T>>,
    version: u64,
)
    requires
        forall|pid: u32| #[trigger] before.contains_key(pid) ==> before[pid].version < version,
        forall|pid: u32| #[trigger] stored.contains_key(pid) ==> stored[pid].version == version,
    ensures
        seen_in(before.union_prefer_right(stored), version) == stored,
{
    assert(seen_in(before.union_prefer_right(stored), version) =~= stored);
}

} // verus!
