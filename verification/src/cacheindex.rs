//! Cache index: maps a cache key to the tool run that produced the cached
//! result. Entries are recorded only after a successful execution and
//! never expire on their own.

use vstd::prelude::*;

use crate::bytes::bytes_eq;

verus! {

struct CacheSlot {
    key: Vec<u8>,
    run: u64,
}

/// The cache index. Its model is a map from cache-key bytes to tool run
/// identifiers.
pub struct CacheIndex {
    slots: Vec<CacheSlot>,
}

spec fn slots_map(s: Seq<CacheSlot>) -> Map<Seq<u8>, u64>
    decreases s.len(),
{
    if s.len() == 0 {
        Map::<Seq<u8>, u64>::empty()
    } else {
        slots_map(s.drop_last()).insert(s.last().key@, s.last().run)
    }
}

/// What `record` does to the model: first writer wins — a key already
/// bound keeps its binding.
pub open spec fn spec_record(m: Map<Seq<u8>, u64>, k: Seq<u8>, run: u64) -> Map<Seq<u8>, u64> {
    if m.contains_key(k) {
        m
    } else {
        m.insert(k, run)
    }
}

proof fn lemma_slots_map_index(s: Seq<CacheSlot>)
    ensures
        forall|k: Seq<u8>|
            slots_map(s).contains_key(k) <==> exists|i: int| 0 <= i < s.len() && s[i].key@ == k,
    decreases s.len(),
{
    if s.len() > 0 {
        lemma_slots_map_index(s.drop_last());
        assert forall|k: Seq<u8>| slots_map(s).contains_key(k) implies exists|i: int|
            0 <= i < s.len() && s[i].key@ == k by {
            if s.last().key@ == k {
                assert(s[s.len() - 1].key@ == k);
            } else {
                assert(slots_map(s.drop_last()).contains_key(k));
                let i = choose|i: int| 0 <= i < s.drop_last().len() && s.drop_last()[i].key@ == k;
                assert(s.drop_last()[i] == s[i]);
                assert(s[i].key@ == k);
            }
        }
        assert forall|k: Seq<u8>|
            (exists|i: int| 0 <= i < s.len() && s[i].key@ == k) implies slots_map(s).contains_key(
            k,
        ) by {
            let i = choose|i: int| 0 <= i < s.len() && s[i].key@ == k;
            if i == s.len() - 1 {
                assert(s.last().key@ == k);
            } else {
                assert(s.drop_last()[i] == s[i]);
                assert(s.drop_last()[i].key@ == k);
                assert(slots_map(s.drop_last()).contains_key(k));
            }
        }
    }
}

proof fn lemma_slots_map_value(s: Seq<CacheSlot>, i: int)
    requires
        0 <= i < s.len(),
        forall|x: int, y: int|
            0 <= x < s.len() && 0 <= y < s.len() && x != y ==> s[x].key@ != s[y].key@,
    ensures
        slots_map(s).contains_key(s[i].key@),
        slots_map(s)[s[i].key@] == s[i].run,
    decreases s.len(),
{
    if i == s.len() - 1 {
    } else {
        lemma_slots_map_value(s.drop_last(), i);
        assert(s.drop_last()[i] == s[i]);
        assert(s.last().key@ != s[i].key@);
    }
}

impl CacheIndex {
    /// The index's abstract contents.
    pub closed spec fn view(&self) -> Map<Seq<u8>, u64> {
        slots_map(self.slots@)
    }

    /// Internal well-formedness: cache keys are pairwise distinct.
    pub closed spec fn wf(&self) -> bool {
        forall|x: int, y: int|
            0 <= x < self.slots@.len() && 0 <= y < self.slots@.len() && x != y
                ==> self.slots@[x].key@ != self.slots@[y].key@
    }

    /// An empty index.
    pub fn new() -> (r: CacheIndex)
        ensures
            r.wf(),
            r.view() == Map::<Seq<u8>, u64>::empty(),
    {
        CacheIndex { slots: Vec::new() }
    }

    /// Returns the tool run recorded for `key`, or `None` on a miss —
    /// a miss is expected control flow, not a failure.
    pub fn lookup(&self, key: &Vec<u8>) -> (r: Option<u64>)
        requires
            self.wf(),
        ensures
            match r {
                Some(run) => self.view().contains_key(key@) && self.view()[key@] == run,
                None => !self.view().contains_key(key@),
            },
    {
        proof {
            lemma_slots_map_index(self.slots@);
        }
        let mut i: usize = 0;
        while i < self.slots.len()
            invariant
                i <= self.slots@.len(),
                self.wf(),
                forall|j: int| 0 <= j < i ==> self.slots@[j].key@ != key@,
            decreases self.slots@.len() - i,
        {
            if bytes_eq(&self.slots[i].key, key) {
                proof {
                    lemma_slots_map_value(self.slots@, i as int);
                }
                return Some(self.slots[i].run);
            }
            i = i + 1;
        }
        proof {
            lemma_slots_map_index(self.slots@);
        }
        None
    }

    /// Records that `run` produced the result for `key`. A key already
    /// recorded keeps its original run: within one key, executions are
    /// serialized and the first recorded result is the one reused.
    pub fn record(&mut self, key: &Vec<u8>, run: u64)
        requires
            old(self).wf(),
        ensures
            final(self).wf(),
            final(self).view() == spec_record(old(self).view(), key@, run),
    {
        proof {
            lemma_slots_map_index(self.slots@);
        }
        let mut i: usize = 0;
        while i < self.slots.len()
            invariant
                i <= self.slots@.len(),
                *self == *old(self),
                self.wf(),
                forall|j: int| 0 <= j < i ==> self.slots@[j].key@ != key@,
            decreases self.slots@.len() - i,
        {
            if bytes_eq(&self.slots[i].key, key) {
                proof {
                    lemma_slots_map_index(self.slots@);
                    assert(self.view().contains_key(key@));
                }
                return ;
            }
            i = i + 1;
        }
        proof {
            lemma_slots_map_index(self.slots@);
            assert(!self.view().contains_key(key@));
        }
        let ghost pre = self.slots@;
        self.slots.push(CacheSlot { key: key.clone(), run });
        proof {
            assert(self.slots@.drop_last() =~= pre);
        }
    }
}

/// Law (single execution per key): once a run is recorded for a fresh
/// key, every later lookup of that key yields that same run — callers
/// that find the entry reuse it instead of executing again.
pub proof fn lemma_record_then_reuse(m: Map<Seq<u8>, u64>, k: Seq<u8>, run: u64)
    requires
        !m.contains_key(k),
    ensures
        spec_record(m, k, run).contains_key(k),
        spec_record(m, k, run)[k] == run,
{
}

} // verus!
