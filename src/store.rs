use vstd::prelude::*;
use crate::laws::lemma_sweep_reclaims;

verus! {

/// Milliseconds in one second; time is measured in milliseconds.
pub const MILLIS_PER_SEC: u128 = 1000;

/// The instant (in milliseconds) at which an entry inserted at `now` with a
/// time-to-live of `ttl` seconds stops being retrievable.
pub open spec fn expiry_of(now: int, ttl: int) -> int {
    now + ttl * MILLIS_PER_SEC as int
}

/// Whether an entry that expires at `expires_at` is still live at `now`.
pub open spec fn is_live(expires_at: int, now: int) -> bool {
    now < expires_at
}

/// What a read of `key` at `now` sees in a store whose contents are `m`.
pub open spec fn lookup<T>(m: Map<Seq<char>, (T, int)>, key: Seq<char>, now: int) -> Option<T> {
    if m.contains_key(key) && is_live(m[key].1, now) {
        Some(m[key].0)
    } else {
        None
    }
}

/// The contents left after a sweep at `now`: the entries still live then.
pub open spec fn swept<T>(m: Map<Seq<char>, (T, int)>, now: int) -> Map<Seq<char>, (T, int)> {
    m.restrict(m.dom().filter(|k: Seq<char>| is_live(m[k].1, now)))
}

/// One stored value with the absolute instant at which it expires.
pub struct CacheEntry<T> {
    pub key: String,
    pub value: T,
    pub expires_at: u128,
}

/// The in-process backend: each key is held at most once, together with its
/// value and its expiry instant. The entries sit in a vector rather than a
/// hash map so that a sweep can visit and drop every expired one in a single
/// verified pass; keys are kept unique by the invariant instead.
pub struct InMemoryCache<T> {
    entries: Vec<CacheEntry<T>>,
    contents: Ghost<Map<Seq<char>, (T, int)>>,
}

impl<T> View for InMemoryCache<T> {
    type V = Map<Seq<char>, (T, int)>;

    closed spec fn view(&self) -> Map<Seq<char>, (T, int)> {
        self.contents@
    }
}

impl<T> Default for InMemoryCache<T> {
    fn default() -> (r: Self)
        ensures
            r.wf(),
            r@ == Map::<Seq<char>, (T, int)>::empty(),
            r@.dom().finite(),
    {
        Self::new()
    }
}

impl<T> InMemoryCache<T> {
    /// A well-formed store holds finitely many keys.
    pub proof fn lemma_finite(&self)
        requires
            self.wf(),
        ensures
            self@.dom().finite(),
    {
    }

    /// The entries are keyed uniquely and are exactly the contents.
    pub closed spec fn wf(&self) -> bool {
        let s = self.entries@;
        let m = self.contents@;
        &&& forall|i: int, j: int|
            0 <= i < j < s.len() ==> #[trigger] s[i].key@ != #[trigger] s[j].key@
        &&& forall|i: int|
            0 <= i < s.len() ==> #[trigger] m.contains_key(s[i].key@) && m[s[i].key@] == (
            s[i].value,
            s[i].expires_at as int,
        )
        &&& forall|k: Seq<char>|
            #[trigger] m.contains_key(k) ==> exists|i: int| 0 <= i < s.len() && s[i].key@ == k
        &&& m.dom().finite()
        &&& m.len() == s.len()
    }

    /// An empty store.
    pub fn new() -> (r: Self)
        ensures
            r.wf(),
            r@ == Map::<Seq<char>, (T, int)>::empty(),
            r@.dom().finite(),
    {
        InMemoryCache { entries: Vec::new(), contents: Ghost(Map::empty()) }
    }

    /// The number of entries held, expired ones that no sweep has removed yet
    /// included.
    pub fn len(&self) -> (r: usize)
        requires
            self.wf(),
        ensures
            r == self@.len(),
    {
        self.entries.len()
    }

    /// The index of the entry under `key`, if there is one.
    fn position(&self, key: &String) -> (r: Option<usize>)
        requires
            self.wf(),
        ensures
            r is None ==> !self@.contains_key(key@),
            r matches Some(i) ==> i < self.entries@.len() && self.entries@[i as int].key@ == key@,
    {
        let mut i: usize = 0;
        while i < self.entries.len()
            invariant
                self.wf(),
                i <= self.entries@.len(),
                forall|j: int| 0 <= j < i ==> #[trigger] self.entries@[j].key@ != key@,
            decreases self.entries@.len() - i,
        {
            if self.entries[i].key == *key {
                return Some(i);
            }
            i = i + 1;
        }
        None
    }

    /// Stores `value` under `key`, replacing whatever the key held, so that it
    /// can be read until `ttl` seconds after `now` (in milliseconds).
    pub fn insert_item(&mut self, key: String, value: T, ttl: u64, now: u64)
        requires
            old(self).wf(),
        ensures
            final(self).wf(),
            final(self)@ == old(self)@.insert(key@, (value, expiry_of(now as int, ttl as int))),
            final(self)@.dom().finite(),
    {
        let expires_at: u128 = now as u128 + ttl as u128 * MILLIS_PER_SEC;
        let ghost k = key@;
        let ghost new_contents = self@.insert(k, (value, expires_at as int));
        match self.position(&key) {
            Some(i) => {
                proof {
                    assert(new_contents.dom() =~= self@.dom());
                }
                self.entries.set(i, CacheEntry { key, value, expires_at });
                self.contents = Ghost(new_contents);
                assert forall|j: int| 0 <= j < self.entries@.len() implies #[trigger] new_contents.contains_key(
                    self.entries@[j].key@,
                ) && new_contents[self.entries@[j].key@] == (
                    self.entries@[j].value,
                    self.entries@[j].expires_at as int,
                ) by {
                    if j != i {
                        assert(self.entries@[j] == old(self).entries@[j]);
                        assert(old(self)@.contains_key(old(self).entries@[j].key@));
                        if j < i {
                            assert(old(self).entries@[j].key@ != old(self).entries@[i as int].key@);
                        } else {
                            assert(old(self).entries@[i as int].key@ != old(self).entries@[j].key@);
                        }
                        assert(self.entries@[j].key@ != k);
                    }
                }
                assert forall|k2: Seq<char>| #[trigger] new_contents.contains_key(k2) implies exists|
                    j: int,
                | 0 <= j < self.entries@.len() && self.entries@[j].key@ == k2 by {
                    if k2 != k {
                        let j = choose|j: int|
                            0 <= j < self.entries@.len() && old(self).entries@[j].key@ == k2;
                        assert(self.entries@[j].key@ == k2);
                    } else {
                        assert(self.entries@[i as int].key@ == k2);
                    }
                }
            },
            None => {
                self.entries.push(CacheEntry { key, value, expires_at });
                self.contents = Ghost(new_contents);
                assert forall|j: int| 0 <= j < old(self).entries@.len() implies #[trigger] self.entries@[j].key@ != k by {
                    assert(old(self)@.contains_key(old(self).entries@[j].key@));
                }
                assert forall|k2: Seq<char>| #[trigger] new_contents.contains_key(k2) implies exists|
                    j: int,
                | 0 <= j < self.entries@.len() && self.entries@[j].key@ == k2 by {
                    if k2 != k {
                        let j = choose|j: int|
                            0 <= j < old(self).entries@.len() && old(self).entries@[j].key@ == k2;
                        assert(self.entries@[j].key@ == k2);
                    } else {
                        assert(self.entries@[old(self).entries@.len() as int].key@ == k2);
                    }
                }
            },
        }
    }

    /// Removes whatever `key` holds; a key that holds nothing is left so.
    pub fn remove_item(&mut self, key: &str)
        requires
            old(self).wf(),
        ensures
            final(self).wf(),
            final(self)@ == old(self)@.remove(key@),
            final(self)@.dom().finite(),
    {
        let owned = key.to_owned();
        match self.position(&owned) {
            Some(i) => {
                let ghost new_contents = self@.remove(key@);
                let ghost s = self.entries@;
                self.entries.remove(i);
                self.contents = Ghost(new_contents);
                assert forall|k2: Seq<char>| #[trigger] new_contents.contains_key(k2) implies exists|
                    j: int,
                | 0 <= j < self.entries@.len() && self.entries@[j].key@ == k2 by {
                    let j = choose|j: int| 0 <= j < s.len() && s[j].key@ == k2;
                    if j < i {
                        assert(self.entries@[j].key@ == k2);
                    } else {
                        assert(self.entries@[j - 1].key@ == k2);
                    }
                }
            },
            None => {
                assert(self@.remove(key@) =~= self@);
            },
        }
    }

    /// The value under `key` if the entry is still live at `now` (in
    /// milliseconds); an expired entry reads as absent and stays in place
    /// until a sweep.
    pub fn retrieve_item(&self, key: &str, now: u64) -> (r: Option<T>) where T: Clone
        requires
            self.wf(),
        ensures
            match lookup(self@, key@, now as int) {
                Some(v) => r matches Some(c) && cloned(v, c),
                None => r is None,
            },
    {
        let owned = key.to_owned();
        match self.position(&owned) {
            Some(i) => {
                let entry = &self.entries[i];
                if (now as u128) < entry.expires_at {
                    Some(entry.value.clone())
                } else {
                    None
                }
            },
            None => None,
        }
    }

    /// Removes, in one pass, every entry that is no longer live at `now` (in
    /// milliseconds), and keeps the others as they are.
    pub fn invalidate_expired(&mut self, now: u64)
        requires
            old(self).wf(),
        ensures
            final(self).wf(),
            final(self)@ == swept(old(self)@, now as int),
            final(self)@.dom().finite(),
            forall|k: Seq<char>|
                old(self)@.contains_key(k) && !is_live(#[trigger] old(self)@[k].1, now as int)
                    ==> !final(self)@.contains_key(k) && final(self)@.len() < old(self)@.len(),
    {
        let ghost m = self@;
        let mut pending: Vec<CacheEntry<T>> = Vec::new();
        std::mem::swap(&mut pending, &mut self.entries);
        let ghost orig = pending@;
        let mut kept: Vec<CacheEntry<T>> = Vec::new();
        let ghost mut kept_map = Map::<Seq<char>, (T, int)>::empty();
        assert(pending@ =~= orig.take(orig.len() as int));
        while pending.len() > 0
            invariant
                orig == old(self).entries@,
                m == old(self)@,
                old(self).wf(),
                pending@.len() <= orig.len(),
                pending@ == orig.take(pending@.len() as int),
                forall|i: int, j: int|
                    0 <= i < j < kept@.len() ==> #[trigger] kept@[i].key@ != #[trigger] kept@[j].key@,
                forall|i: int|
                    0 <= i < kept@.len() ==> #[trigger] kept_map.contains_key(kept@[i].key@)
                        && kept_map[kept@[i].key@] == (kept@[i].value, kept@[i].expires_at as int),
                forall|k: Seq<char>|
                    #[trigger] kept_map.contains_key(k) ==> exists|i: int|
                        0 <= i < kept@.len() && kept@[i].key@ == k,
                kept_map.dom().finite(),
                kept_map.len() == kept@.len(),
                forall|k: Seq<char>|
                    #[trigger] kept_map.contains_key(k) ==> swept(m, now as int).contains_key(k)
                        && kept_map[k] == m[k] && exists|j: int|
                        pending@.len() <= j < orig.len() && orig[j].key@ == k,
                forall|j: int|
                    pending@.len() <= j < orig.len() && is_live(orig[j].expires_at as int, now as int)
                        ==> #[trigger] kept_map.contains_key(orig[j].key@),
            decreases pending@.len(),
        {
            let ghost n = pending@.len() - 1;
            let ghost before = pending@;
            assert(before[n] == orig[n]);
            let entry = pending.pop().unwrap();
            assert(entry == orig[n]);
            assert(pending@ =~= orig.take(n));
            if (now as u128) < entry.expires_at {
                proof {
                    assert(m.contains_key(orig[n].key@));
                    assert forall|k: Seq<char>| kept_map.contains_key(k) implies k != entry.key@ by {
                        let j = choose|j: int| n < j < orig.len() && orig[j].key@ == k;
                        assert(orig[n].key@ != orig[j].key@);
                    }
                    assert forall|i: int| 0 <= i < kept@.len() implies #[trigger] kept@[i].key@ != entry.key@ by {
                        assert(kept_map.contains_key(kept@[i].key@));
                    }
                    kept_map = kept_map.insert(entry.key@, (entry.value, entry.expires_at as int));
                }
                let ghost prev = kept@;
                kept.push(entry);
                proof {
                    assert forall|k: Seq<char>| #[trigger] kept_map.contains_key(k) implies exists|i: int|
                        0 <= i < kept@.len() && kept@[i].key@ == k by {
                        if k == orig[n].key@ {
                            assert(kept@[kept@.len() - 1].key@ == k);
                        } else {
                            let i = choose|i: int| 0 <= i < prev.len() && prev[i].key@ == k;
                            assert(kept@[i].key@ == k);
                        }
                    }
                }
            }
        }
        assert(kept_map =~= swept(m, now as int));
        let ghost ks = kept@;
        self.entries = kept;
        self.contents = Ghost(kept_map);
        assert(self.entries@ == ks);
        assert forall|k: Seq<char>|
            m.contains_key(k) && !is_live(#[trigger] m[k].1, now as int) implies !self@.contains_key(k)
                && self@.len() < m.len() by {
            lemma_sweep_reclaims(m, k, now as int);
        }
        assert(forall|i: int|
            0 <= i < ks.len() ==> #[trigger] kept_map.contains_key(ks[i].key@)
                && kept_map[ks[i].key@] == (ks[i].value, ks[i].expires_at as int));
    }
}

} // verus!
