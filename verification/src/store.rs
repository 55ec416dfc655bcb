use vstd::prelude::*;
use vstd::hash_map::StringHashMap;
use vstd::rwlock::{RwLock, RwLockPredicate};
use crate::models::{zero_entry, QuoteEntry};

verus! {

/// The shared quote store: the latest `QuoteEntry` per instrument
/// key. An entry is only ever replaced whole — a reader can never see
/// a mix of an old and a new record. The tracked keys are seeded at
/// construction, so no reader needs to handle a missing key.
pub struct QuoteStore {
    keys: Vec<String>,
    map: StringHashMap<QuoteEntry>,
}

impl View for QuoteStore {
    type V = Map<Seq<char>, QuoteEntry>;

    closed spec fn view(&self) -> Map<Seq<char>, QuoteEntry> {
        self.map@
    }
}

impl QuoteStore {
    /// The key list names exactly the map's domain, each key once.
    pub closed spec fn wf(&self) -> bool {
        &&& forall|i: int, j: int|
            0 <= i < j < self.keys@.len() ==> self.keys@[i]@ != self.keys@[j]@
        &&& forall|i: int|
            0 <= i < self.keys@.len() ==> self@.contains_key(#[trigger] self.keys@[i]@)
        &&& forall|k: Seq<char>|
            self@.contains_key(k) ==> exists|i: int|
                0 <= i < self.keys@.len() && #[trigger] self.keys@[i]@ == k
    }

    /// An empty store. Seed it with [`QuoteStore::new`] instead where
    /// the tracked instruments are known.
    pub fn empty() -> (r: QuoteStore)
        ensures
            r.wf(),
            r@ == Map::<Seq<char>, QuoteEntry>::empty(),
    {
        QuoteStore { keys: Vec::new(), map: StringHashMap::new() }
    }

    /// The store at startup: every tracked key present, bound to the
    /// zero-valued placeholder, so readers never observe an absent
    /// key.
    pub fn new(tracked_keys: Vec<String>) -> (r: QuoteStore)
        ensures
            r.wf(),
            forall|i: int|
                0 <= i < tracked_keys@.len() ==> r@.contains_key(#[trigger] tracked_keys@[i]@)
                    && r@[tracked_keys@[i]@] == zero_entry(),
            forall|k: Seq<char>|
                r@.contains_key(k) ==> exists|i: int|
                    0 <= i < tracked_keys@.len() && #[trigger] tracked_keys@[i]@ == k,
    {
        let mut r = QuoteStore::empty();
        let mut t: usize = 0;
        while t < tracked_keys.len()
            invariant
                t <= tracked_keys@.len(),
                r.wf(),
                forall|i: int|
                    0 <= i < t ==> r@.contains_key(#[trigger] tracked_keys@[i]@)
                        && r@[tracked_keys@[i]@] == zero_entry(),
                forall|k: Seq<char>|
                    r@.contains_key(k) ==> exists|i: int|
                        0 <= i < t && #[trigger] tracked_keys@[i]@ == k,
            decreases tracked_keys@.len() - t,
        {
            let key = tracked_keys[t].clone();
            r.put(key, QuoteEntry::zero());
            t = t + 1;
        }
        r
    }

    /// Replace the entry for `key` with `rec`, whole. Last writer
    /// wins; no field-by-field update exists.
    pub fn put(&mut self, key: String, rec: QuoteEntry)
        requires
            old(self).wf(),
        ensures
            final(self).wf(),
            final(self)@ == old(self)@.insert(key@, rec),
    {
        let present = self.map.contains_key(key.as_str());
        if !present {
            self.keys.push(key.clone());
        }
        self.map.insert(key, rec);
        proof {
            let ks = self.keys@;
            let oks = old(self).keys@;
            assert forall|k: Seq<char>| self@.contains_key(k) implies exists|i: int|
                0 <= i < ks.len() && #[trigger] ks[i]@ == k by {
                if k == key@ && !present {
                    assert(ks[ks.len() - 1]@ == k);
                } else {
                    assert(old(self)@.contains_key(k));
                    let i = choose|i: int| 0 <= i < oks.len() && #[trigger] oks[i]@ == k;
                    assert(ks[i] == oks[i]);
                    assert(ks[i]@ == k);
                }
            }
        }
    }

    /// The latest record for `key`, or `None` for a key never seeded
    /// nor written.
    pub fn get(&self, key: &str) -> (r: Option<&QuoteEntry>)
        ensures
            match r {
                Some(v) => self@.contains_key(key@) && *v == self@[key@],
                None => !self@.contains_key(key@),
            },
    {
        self.map.get(key)
    }

    /// A consistent copy of every current entry: each pair carries a
    /// key of the store and that key's whole current record, every
    /// key of the store appears, and none twice.
    pub fn snapshot(&self) -> (r: Vec<(String, QuoteEntry)>)
        requires
            self.wf(),
        ensures
            forall|i: int|
                0 <= i < r@.len() ==> self@.contains_key(#[trigger] r@[i].0@) && r@[i].1
                    == self@[r@[i].0@],
            forall|k: Seq<char>|
                self@.contains_key(k) ==> exists|i: int|
                    0 <= i < r@.len() && #[trigger] r@[i].0@ == k,
            forall|i: int, j: int| 0 <= i < j < r@.len() ==> r@[i].0@ != r@[j].0@,
    {
        let mut out: Vec<(String, QuoteEntry)> = Vec::new();
        let mut t: usize = 0;
        while t < self.keys.len()
            invariant
                t <= self.keys@.len(),
                self.wf(),
                out@.len() == t,
                forall|i: int| 0 <= i < t ==> out@[i].0@ == #[trigger] self.keys@[i]@,
                forall|i: int|
                    0 <= i < out@.len() ==> self@.contains_key(#[trigger] out@[i].0@) && out@[i].1
                        == self@[out@[i].0@],
            decreases self.keys@.len() - t,
        {
            let key = self.keys[t].clone();
            match self.map.get(key.as_str()) {
                Some(rec) => {
                    out.push((key, *rec));
                },
                None => {
                    // unreachable: every listed key is in the map
                    proof {
                        assert(self@.contains_key(self.keys@[t as int]@));
                    }
                    assert(false);
                },
            }
            t = t + 1;
        }
        proof {
            assert forall|k: Seq<char>| self@.contains_key(k) implies exists|i: int|
                0 <= i < out@.len() && #[trigger] out@[i].0@ == k by {
                let i = choose|i: int|
                    0 <= i < self.keys@.len() && #[trigger] self.keys@[i]@ == k;
                assert(out@[i].0@ == k);
            }
            assert forall|i: int, j: int| 0 <= i < j < out@.len() implies out@[i].0@ != out@[
                j
            ].0@ by {
                assert(out@[i].0@ == self.keys@[i]@);
                assert(out@[j].0@ == self.keys@[j]@);
            }
        }
        out
    }
}

/// The one invariant every value inside the shared lock satisfies.
pub struct StoreWf;

impl RwLockPredicate<QuoteStore> for StoreWf {
    open spec fn inv(self, v: QuoteStore) -> bool {
        v.wf()
    }
}

/// The store behind one mutual-exclusion region, shared by every
/// ingestion loop and the reporting loop. Every write replaces one
/// entry whole and every read copies under the lock, so no reader
/// observes a torn record or a store mid-mutation; the lock is never
/// held across I/O.
pub struct SharedQuoteStore {
    pub(crate) lock: RwLock<QuoteStore, StoreWf>,
}

impl SharedQuoteStore {
    /// The shared store at startup, seeded as [`QuoteStore::new`]
    /// seeds it.
    pub fn new(tracked_keys: Vec<String>) -> (r: SharedQuoteStore) {
        SharedQuoteStore { lock: RwLock::new(QuoteStore::new(tracked_keys), Ghost(StoreWf)) }
    }

    /// Replace the entry for `key` with `rec`, whole, under the
    /// write lock.
    pub fn put(&self, key: String, rec: QuoteEntry) {
        let (mut st, handle) = self.lock.acquire_write();
        st.put(key, rec);
        handle.release_write(st);
    }

    /// A consistent copy of every current entry, taken under the
    /// read lock: each key of the store once, with that key's whole
    /// record at the moment of the copy.
    pub fn snapshot(&self) -> (r: Vec<(String, QuoteEntry)>)
        ensures
            forall|i: int, j: int| 0 <= i < j < r@.len() ==> r@[i].0@ != r@[j].0@,
    {
        let handle = self.lock.acquire_read();
        let snap = handle.borrow().snapshot();
        handle.release_read();
        snap
    }

    /// The latest record for `key` at the moment of the read.
    pub fn get(&self, key: &str) -> (r: Option<QuoteEntry>) {
        let handle = self.lock.acquire_read();
        let found = match handle.borrow().get(key) {
            Some(v) => Some(*v),
            None => None,
        };
        handle.release_read();
        found
    }
}

/// Writing twice under one key leaves the second record, whole: the
/// store after `put(k, r1)` then `put(k, r2)` is the store after
/// `put(k, r2)` alone, and `k` reads back exactly `r2`, never a mix
/// of the two records' fields.
pub proof fn lemma_last_write_wins(
    m: Map<Seq<char>, QuoteEntry>,
    k: Seq<char>,
    r1: QuoteEntry,
    r2: QuoteEntry,
)
    ensures
        m.insert(k, r1).insert(k, r2) == m.insert(k, r2),
        m.insert(k, r1).insert(k, r2)[k] == r2,
{
    assert(m.insert(k, r1).insert(k, r2) =~= m.insert(k, r2));
}

} // verus!
