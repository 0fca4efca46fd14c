//! The pool of live sessions: at most one per alias, each tagged with an
//! identity so that a stale handle never evicts a fresh reconnect.
use vstd::prelude::*;

use crate::seqs::lemma_index_of;

verus! {

/// A pooled session and the identity it was given when it was stored.
pub struct PoolEntry<T> {
    pub id: u64,
    pub session: T,
}

/// Alias → session, each alias at most once. Every stored session gets an
/// identity that no earlier one had.
pub struct ConnectionPool<T> {
    entries: Vec<(String, PoolEntry<T>)>,
    next_id: u64,
}

/// The aliases of `s`, in order.
pub open spec fn pool_names<T>(s: Seq<(String, PoolEntry<T>)>) -> Seq<Seq<char>> {
    s.map_values(|e: (String, PoolEntry<T>)| e.0@)
}

impl<T> ConnectionPool<T> {
    /// Each alias stands at most once.
    pub closed spec fn wf(&self) -> bool {
        pool_names(self.entries@).no_duplicates()
    }

    /// The entries, in the order they are held.
    pub closed spec fn items(&self) -> Seq<(String, PoolEntry<T>)> {
        self.entries@
    }

    /// The registry as a map from alias to entry.
    pub closed spec fn map(&self) -> Map<Seq<char>, PoolEntry<T>> {
        Map::new(
            |k: Seq<char>| pool_names(self.entries@).contains(k),
            |k: Seq<char>| self.entries@[pool_names(self.entries@).index_of(k)].1,
        )
    }

    /// An empty pool.
    pub fn new() -> (r: Self)
        ensures
            r.wf(),
            r.map() == Map::<Seq<char>, PoolEntry<T>>::empty(),
            r.ids_fresh(),
    {
        let r = ConnectionPool { entries: Vec::new(), next_id: 0 };
        assert(pool_names(r.entries@) =~= Seq::<Seq<char>>::empty());
        assert(r.map() =~= Map::<Seq<char>, PoolEntry<T>>::empty());
        r
    }

    /// The number of pooled sessions.
    pub fn len(&self) -> (r: usize)
        requires
            self.wf(),
        ensures
            r == self.map().dom().len(),
    {
        proof {
            self.lemma_dom_len();
        }
        self.entries.len()
    }

    /// Whether no session is pooled.
    pub fn is_empty(&self) -> (r: bool)
        requires
            self.wf(),
        ensures
            r == (self.map().dom().len() == 0),
    {
        self.len() == 0
    }

    proof fn lemma_dom_len(&self)
        requires
            self.wf(),
        ensures
            self.map().dom().len() == self.entries@.len(),
            self.map().dom() == pool_names(self.entries@).to_set(),
    {
        let ns = pool_names(self.entries@);
        assert(self.map().dom() =~= ns.to_set());
        ns.unique_seq_to_set();
    }

    proof fn lemma_map_at(&self, i: int)
        requires
            self.wf(),
            0 <= i < self.entries@.len(),
        ensures
            self.map().contains_key(self.entries@[i].0@),
            self.map()[self.entries@[i].0@] == self.entries@[i].1,
    {
        let ns = pool_names(self.entries@);
        assert(ns[i] == self.entries@[i].0@);
        lemma_index_of(ns, i);
    }

    /// Position of `name` among the entries, if present.
    fn position(&self, name: &str) -> (r: Option<usize>)
        ensures
            match r {
                Some(i) => i < self.entries@.len() && self.entries@[i as int].0@ == name@
                    && (self.wf() ==> pool_names(self.entries@).index_of(name@) == i),
                None => !pool_names(self.entries@).contains(name@),
            },
    {
        let key = name.to_owned();
        let mut i: usize = 0;
        while i < self.entries.len()
            invariant
                key@ == name@,
                i <= self.entries@.len(),
                forall|j: int| 0 <= j < i ==> self.entries@[j].0@ != name@,
            decreases self.entries@.len() - i,
        {
            if self.entries[i].0 == key {
                proof {
                    let ns = pool_names(self.entries@);
                    assert(ns[i as int] == name@);
                    if self.wf() {
                        assert(ns.contains(name@));
                        let k = ns.index_of(name@);
                        assert(ns[k] == name@);
                    }
                }
                return Some(i);
            }
            i = i + 1;
        }
        proof {
            let ns = pool_names(self.entries@);
            if ns.contains(name@) {
                let k = choose|k: int| 0 <= k < ns.len() && ns[k] == name@;
                assert(self.entries@[k].0@ == name@);
            }
        }
        None
    }

    /// Looks up the entry of an alias.
    pub fn lookup(&self, name: &str) -> (r: Option<&PoolEntry<T>>)
        requires
            self.wf(),
        ensures
            match r {
                Some(e) => self.map().contains_key(name@) && self.map()[name@] == e,
                None => !self.map().contains_key(name@),
            },
    {
        match self.position(name) {
            Some(i) => {
                proof {
                    self.lemma_map_at(i as int);
                }
                Some(&self.entries[i].1)
            },
            None => None,
        }
    }

    /// Stores an entry, replacing any entry under the same alias.
    fn put(&mut self, name: String, entry: PoolEntry<T>)
        requires
            old(self).wf(),
        ensures
            final(self).wf(),
            final(self).next_id() == old(self).next_id(),
            final(self).map() == old(self).map().insert(name@, entry),
    {
        let ghost e = entry;
        match self.position(name.as_str()) {
            Some(i) => {
                let ghost before = self.entries@;
                self.entries.set(i, (name, entry));
                proof {
                    assert(pool_names(self.entries@) =~= pool_names(before));
                    old(self).lemma_map_at(i as int);
                    self.lemma_map_at(i as int);
                    assert(self.map().dom() =~= old(self).map().insert(name@, e).dom());
                    assert forall|k: Seq<char>| #[trigger] self.map().contains_key(k) implies
                        self.map()[k] == old(self).map().insert(name@, e)[k] by {
                        let ns = pool_names(self.entries@);
                        if k != name@ {
                            assert(ns.index_of(k) != i);
                        }
                    }
                    assert(self.map() =~= old(self).map().insert(name@, e));
                }
            },
            None => {
                let ghost before = self.entries@;
                self.entries.push((name, entry));
                proof {
                    let ns = pool_names(self.entries@);
                    let nb = pool_names(before);
                    assert(ns =~= nb.push(name@));
                    assert(ns.no_duplicates()) by {
                        assert forall|a: int, b: int| 0 <= a < b < ns.len() implies ns[a]
                            != ns[b] by {
                            if b == ns.len() - 1 {
                                assert(nb.contains(ns[a]));
                            }
                        }
                    }
                    assert forall|k: Seq<char>| #[trigger] self.map().contains_key(k) implies
                        self.map()[k] == old(self).map().insert(name@, e)[k] by {
                        if k == name@ {
                            assert(ns[ns.len() - 1] == k);
                            lemma_index_of(ns, ns.len() - 1);
                        } else {
                            assert(nb.contains(k));
                            let j = nb.index_of(k);
                            assert(ns[j] == k);
                            lemma_index_of(ns, j);
                        }
                    }
                    assert forall|k: Seq<char>| #[trigger] old(self).map().insert(name@, e).contains_key(k)
                        implies self.map().contains_key(k) by {
                        if k == name@ {
                            assert(ns[ns.len() - 1] == k);
                        } else {
                            let j = nb.index_of(k);
                            assert(ns[j] == k);
                        }
                    }
                    assert(self.map().dom() =~= old(self).map().insert(name@, e).dom());
                    assert(self.map() =~= old(self).map().insert(name@, e));
                }
            },
        }
    }

    /// Removes an alias's entry, returning it if it existed.
    pub fn remove(&mut self, name: &str) -> (r: Option<PoolEntry<T>>)
        requires
            old(self).wf(),
        ensures
            final(self).wf(),
            final(self).next_id() == old(self).next_id(),
            final(self).map() == old(self).map().remove(name@),
            match r {
                Some(e) => old(self).map().contains_key(name@) && old(self).map()[name@] == e,
                None => !old(self).map().contains_key(name@),
            },
    {
        match self.position(name) {
            Some(i) => {
                proof {
                    self.lemma_map_at(i as int);
                }
                let ghost before = self.entries@;
                let (_, e) = self.entries.remove(i);
                proof {
                    let ns = pool_names(self.entries@);
                    let nb = pool_names(before);
                    assert(ns =~= nb.remove(i as int));
                    assert forall|a: int, b: int| 0 <= a < b < ns.len() implies ns[a] != ns[b] by {
                        let a2 = if a < i { a } else { a + 1 };
                        let b2 = if b < i { b } else { b + 1 };
                        assert(ns[a] == nb[a2] && ns[b] == nb[b2]);
                    }
                    assert forall|k: Seq<char>| #[trigger] self.map().contains_key(k) implies
                        self.map()[k] == old(self).map().remove(name@)[k] && k != name@
                        && old(self).map().contains_key(k) by {
                        let j = ns.index_of(k);
                        let j2 = if j < i { j } else { j + 1 };
                        assert(ns[j] == k);
                        assert(nb[j2] == k);
                        lemma_index_of(nb, j2);
                        assert(j2 != i);
                    }
                    assert forall|k: Seq<char>| #[trigger] old(self).map().contains_key(k) && k
                        != name@ implies self.map().contains_key(k) by {
                        let j = nb.index_of(k);
                        assert(nb[j] == k);
                        assert(j != i);
                        let j2 = if j < i { j } else { j - 1 };
                        assert(ns[j2] == k);
                    }
                    assert(self.map() =~= old(self).map().remove(name@));
                }
                Some(e)
            },
            None => {
                assert(old(self).map().remove(name@) =~= old(self).map());
                None
            },
        }
    }
}

impl<T> ConnectionPool<T> {
    /// The identity the next stored session will get.
    pub closed spec fn next_id(&self) -> u64 {
        self.next_id
    }

    /// Every pooled identity is below `next_id`, so each new one is fresh.
    pub open spec fn ids_fresh(&self) -> bool {
        forall|k: Seq<char>| #[trigger] self.map().contains_key(k) ==> self.map()[k].id < self.next_id()
    }

    /// Whether another session can still be given a fresh identity.
    pub fn can_insert(&self) -> (r: bool)
        ensures
            r == (self.next_id() < u64::MAX),
    {
        self.next_id < u64::MAX
    }

    /// Stores `session` under `name`, replacing any prior entry, and returns
    /// the fresh identity it was given.
    pub fn insert(&mut self, name: String, session: T) -> (id: u64)
        requires
            old(self).wf(),
            old(self).ids_fresh(),
            old(self).next_id() < u64::MAX,
        ensures
            final(self).wf(),
            final(self).ids_fresh(),
            id == old(self).next_id(),
            final(self).next_id() == id + 1,
            final(self).map() == old(self).map().insert(name@, PoolEntry { id, session }),
    {
        let id = self.next_id;
        self.put(name, PoolEntry { id, session });
        self.next_id = id + 1;
        id
    }

    /// Removes the entry of `name` only if it still holds the session with
    /// identity `id`; a session stored later under the same alias stays.
    pub fn evict_if_same(&mut self, name: &str, id: u64) -> (r: Option<T>)
        requires
            old(self).wf(),
            old(self).ids_fresh(),
        ensures
            final(self).wf(),
            final(self).ids_fresh(),
            final(self).next_id() == old(self).next_id(),
            if old(self).map().contains_key(name@) && old(self).map()[name@].id == id {
                &&& final(self).map() == old(self).map().remove(name@)
                &&& r == Some(old(self).map()[name@].session)
            } else {
                &&& final(self).map() == old(self).map()
                &&& r is None
            },
    {
        let same = match self.lookup(name) {
            Some(e) => e.id == id,
            None => false,
        };
        if same {
            match self.remove(name) {
                Some(e) => Some(e.session),
                None => None,
            }
        } else {
            None
        }
    }

    /// Records the outcome of a liveness check on the session with identity
    /// `id` found under `name`: a closed session is evicted (only if it is
    /// still the pooled one). Returns whether the session may be used.
    pub fn check_liveness(&mut self, name: &str, id: u64, closed: bool) -> (usable: bool)
        requires
            old(self).wf(),
            old(self).ids_fresh(),
        ensures
            final(self).wf(),
            final(self).ids_fresh(),
            final(self).next_id() == old(self).next_id(),
            usable == !closed,
            !closed ==> final(self).map() == old(self).map(),
            closed ==> final(self).map() == if old(self).map().contains_key(name@)
                && old(self).map()[name@].id == id {
                old(self).map().remove(name@)
            } else {
                old(self).map()
            },
            closed ==> !(final(self).map().contains_key(name@) && final(self).map()[name@].id == id),
    {
        if closed {
            let _ = self.evict_if_same(name, id);
        }
        !closed
    }

    /// The pooled aliases, each once.
    pub fn names(&self) -> (r: Vec<String>)
        requires
            self.wf(),
        ensures
            r@.map_values(|s: String| s@).to_set() == self.map().dom(),
    {
        let mut r: Vec<String> = Vec::new();
        let mut i: usize = 0;
        while i < self.entries.len()
            invariant
                i <= self.entries@.len(),
                r@.map_values(|s: String| s@) == pool_names(self.entries@).take(i as int),
            decreases self.entries@.len() - i,
        {
            let ghost before = r@.map_values(|s: String| s@);
            r.push(self.entries[i].0.clone());
            assert(r@.map_values(|s: String| s@) =~= before.push(pool_names(self.entries@)[i as int]));
            i = i + 1;
            assert(r@.map_values(|s: String| s@) =~= pool_names(self.entries@).take(i as int));
        }
        proof {
            assert(pool_names(self.entries@).take(i as int) =~= pool_names(self.entries@));
            self.lemma_dom_len();
        }
        r
    }

    /// The pooled entries, in the order they are held.
    pub fn entries(&self) -> (r: &Vec<(String, PoolEntry<T>)>)
        ensures
            r@ == self.items(),
    {
        &self.entries
    }
}

} // verus!
