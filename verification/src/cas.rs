//! Content-addressable store: immutable byte blobs keyed by the hex
//! encoding of their content digest. Identical content is stored once.

use vstd::prelude::*;

use crate::bytes::bytes_eq;
use crate::keys::{key_of, spec_key_of, valid_key};

verus! {

/// Errors of the store.
#[derive(Clone, Copy, Debug, PartialEq, Eq, Structural)]
pub enum CasError {
    /// The requested key holds no blob.
    NotFound,
}

struct CasEntry {
    key: Vec<u8>,
    data: Vec<u8>,
}

/// The content-addressable store. Its model is a map from key bytes to
/// blob bytes.
pub struct Cas {
    entries: Vec<CasEntry>,
}

/// The map a sequence of entries denotes, later entries taking precedence.
spec fn entries_map(s: Seq<CasEntry>) -> Map<Seq<u8>, Seq<u8>>
    decreases s.len(),
{
    if s.len() == 0 {
        Map::<Seq<u8>, Seq<u8>>::empty()
    } else {
        entries_map(s.drop_last()).insert(s.last().key@, s.last().data@)
    }
}

/// What `put` does to the model: insert under the content key, unless the
/// key is already bound (dedup — at most one physical write).
pub open spec fn spec_put_map(m: Map<Seq<u8>, Seq<u8>>, b: Seq<u8>) -> Map<Seq<u8>, Seq<u8>> {
    if m.contains_key(spec_key_of(b)) {
        m
    } else {
        m.insert(spec_key_of(b), b)
    }
}

/// What `get` returns on the model.
pub open spec fn spec_get(m: Map<Seq<u8>, Seq<u8>>, k: Seq<u8>) -> Option<Seq<u8>> {
    if m.contains_key(k) {
        Some(m[k])
    } else {
        None
    }
}

proof fn lemma_entries_map_index(s: Seq<CasEntry>)
    ensures
        forall|k: Seq<u8>|
            entries_map(s).contains_key(k) <==> exists|i: int| 0 <= i < s.len() && s[i].key@ == k,
    decreases s.len(),
{
    if s.len() > 0 {
        lemma_entries_map_index(s.drop_last());
        assert forall|k: Seq<u8>| entries_map(s).contains_key(k) implies exists|i: int|
            0 <= i < s.len() && s[i].key@ == k by {
            if s.last().key@ == k {
                assert(s[s.len() - 1].key@ == k);
            } else {
                assert(entries_map(s.drop_last()).contains_key(k));
                let i = choose|i: int| 0 <= i < s.drop_last().len() && s.drop_last()[i].key@ == k;
                assert(0 <= i < s.len() - 1);
                assert(s.drop_last()[i] == s[i]);
                assert(s[i].key@ == k);
            }
        }
        assert forall|k: Seq<u8>|
            (exists|i: int| 0 <= i < s.len() && s[i].key@ == k) implies entries_map(
            s,
        ).contains_key(k) by {
            let i = choose|i: int| 0 <= i < s.len() && s[i].key@ == k;
            if i == s.len() - 1 {
                assert(s.last().key@ == k);
            } else {
                assert(s.drop_last()[i] == s[i]);
                assert(s.drop_last()[i].key@ == k);
                assert(entries_map(s.drop_last()).contains_key(k));
            }
        }
    }
}

proof fn lemma_entries_map_value(s: Seq<CasEntry>, i: int)
    requires
        0 <= i < s.len(),
        forall|x: int, y: int|
            0 <= x < s.len() && 0 <= y < s.len() && x != y ==> s[x].key@ != s[y].key@,
    ensures
        entries_map(s).contains_key(s[i].key@),
        entries_map(s)[s[i].key@] == s[i].data@,
    decreases s.len(),
{
    if i == s.len() - 1 {
    } else {
        lemma_entries_map_value(s.drop_last(), i);
        assert(s.drop_last()[i] == s[i]);
        assert(s.last().key@ != s[i].key@);
    }
}

impl Cas {
    /// The store's abstract contents.
    pub closed spec fn view(&self) -> Map<Seq<u8>, Seq<u8>> {
        entries_map(self.entries@)
    }

    /// Internal well-formedness: keys are pairwise distinct and each entry
    /// is keyed by the digest of its own content.
    pub closed spec fn wf(&self) -> bool {
        &&& forall|x: int, y: int|
            0 <= x < self.entries@.len() && 0 <= y < self.entries@.len() && x != y
                ==> self.entries@[x].key@ != self.entries@[y].key@
        &&& forall|i: int|
            0 <= i < self.entries@.len() ==> self.entries@[i].key@ == spec_key_of(
                self.entries@[i].data@,
            )
    }

    /// Number of blobs physically stored.
    pub closed spec fn size(&self) -> nat {
        self.entries@.len()
    }

    /// An empty store.
    pub fn new() -> (r: Cas)
        ensures
            r.wf(),
            r.view() == Map::<Seq<u8>, Seq<u8>>::empty(),
            r.size() == 0,
    {
        Cas { entries: Vec::new() }
    }

    /// Stores `data` under its content key if absent and returns the key.
    /// Storing content that is already present changes nothing: at most
    /// one physical write per distinct content.
    pub fn put(&mut self, data: &Vec<u8>) -> (k: Vec<u8>)
        requires
            old(self).wf(),
        ensures
            final(self).wf(),
            k@ == spec_key_of(data@),
            valid_key(k@),
            final(self).view() == spec_put_map(old(self).view(), data@),
            old(self).view().contains_key(spec_key_of(data@)) ==> final(self).size() == old(
                self,
            ).size(),
            !old(self).view().contains_key(spec_key_of(data@)) ==> final(self).size() == old(
                self,
            ).size() + 1,
    {
        let k = key_of(data);
        proof {
            lemma_entries_map_index(self.entries@);
        }
        let mut i: usize = 0;
        while i < self.entries.len()
            invariant
                i <= self.entries@.len(),
                *self == *old(self),
                self.wf(),
                k@ == spec_key_of(data@),
                valid_key(k@),
                forall|j: int| 0 <= j < i ==> self.entries@[j].key@ != k@,
            decreases self.entries@.len() - i,
        {
            if bytes_eq(&self.entries[i].key, &k) {
                proof {
                    lemma_entries_map_index(self.entries@);
                    assert(self.view().contains_key(k@));
                }
                return k;
            }
            i = i + 1;
        }
        proof {
            lemma_entries_map_index(self.entries@);
            assert(!self.view().contains_key(k@));
        }
        let entry = CasEntry { key: k.clone(), data: data.clone() };
        let ghost pre = self.entries@;
        self.entries.push(entry);
        proof {
            assert(self.entries@.drop_last() =~= pre);
            assert(self.entries@.last().key@ == k@);
            assert(self.entries@.last().data@ == data@);
        }
        k
    }

    /// Returns the blob stored under `key`, or `NotFound` when the key is
    /// unknown.
    pub fn get(&self, key: &Vec<u8>) -> (r: Result<Vec<u8>, CasError>)
        requires
            self.wf(),
        ensures
            match r {
                Ok(d) => spec_get(self.view(), key@) == Some(d@),
                Err(e) => e == CasError::NotFound && spec_get(self.view(), key@) is None,
            },
    {
        proof {
            lemma_entries_map_index(self.entries@);
        }
        let mut i: usize = 0;
        while i < self.entries.len()
            invariant
                i <= self.entries@.len(),
                self.wf(),
                forall|j: int| 0 <= j < i ==> self.entries@[j].key@ != key@,
            decreases self.entries@.len() - i,
        {
            if bytes_eq(&self.entries[i].key, key) {
                proof {
                    lemma_entries_map_value(self.entries@, i as int);
                }
                return Ok(self.entries[i].data.clone());
            }
            i = i + 1;
        }
        proof {
            lemma_entries_map_index(self.entries@);
        }
        Err(CasError::NotFound)
    }

    /// True when a blob is stored under `key`.
    pub fn has(&self, key: &Vec<u8>) -> (r: bool)
        requires
            self.wf(),
        ensures
            r == self.view().contains_key(key@),
    {
        proof {
            lemma_entries_map_index(self.entries@);
        }
        let mut i: usize = 0;
        while i < self.entries.len()
            invariant
                i <= self.entries@.len(),
                self.wf(),
                forall|j: int| 0 <= j < i ==> self.entries@[j].key@ != key@,
            decreases self.entries@.len() - i,
        {
            if bytes_eq(&self.entries[i].key, key) {
                proof {
                    lemma_entries_map_index(self.entries@);
                }
                return true;
            }
            i = i + 1;
        }
        proof {
            lemma_entries_map_index(self.entries@);
        }
        false
    }

    /// Number of blobs physically stored.
    pub fn num_blobs(&self) -> (r: usize)
        ensures
            r == self.size(),
    {
        self.entries.len()
    }

    /// Law: in a well-formed store every key is the digest of its blob.
    pub proof fn lemma_keys_match_content(self)
        requires
            self.wf(),
        ensures
            forall|k: Seq<u8>|
                self.view().contains_key(k) ==> k == spec_key_of(self.view()[k]),
    {
        lemma_entries_map_index(self.entries@);
        assert forall|k: Seq<u8>| self.view().contains_key(k) implies k == spec_key_of(
            self.view()[k],
        ) by {
            let i = choose|i: int| 0 <= i < self.entries@.len() && self.entries@[i].key@ == k;
            lemma_entries_map_value(self.entries@, i);
        }
    }
}

/// Law (round trip): storing `b` and reading the returned key back yields
/// `b`, provided the store holds no other content under `b`'s key — that
/// is, unless a digest collision with previously stored content occurred.
pub proof fn lemma_put_get_round_trip(m: Map<Seq<u8>, Seq<u8>>, b: Seq<u8>)
    requires
        m.contains_key(spec_key_of(b)) ==> m[spec_key_of(b)] == b,
    ensures
        spec_get(spec_put_map(m, b), spec_key_of(b)) == Some(b),
{
}

/// Law (idempotence): a second `put` of the same bytes yields the same key
/// and leaves the store's contents unchanged — no duplicate storage.
pub proof fn lemma_put_idempotent(m: Map<Seq<u8>, Seq<u8>>, b: Seq<u8>)
    ensures
        spec_put_map(spec_put_map(m, b), b) == spec_put_map(m, b),
{
    assert(spec_put_map(m, b).contains_key(spec_key_of(b)));
}

} // verus!
