//! A map keyed by session.
use crate::ids::SessionKey;
use crate::ids::SessionKeyView;
use vstd::prelude::*;

verus! {

/// What a list of keys names, in order.
pub open spec fn key_views(keys: Seq<SessionKey>) -> Seq<SessionKeyView> {
    keys.map_values(|k: SessionKey| k@)
}

/// A list of distinct session keys.
pub struct KeyList {
    keys: Vec<SessionKey>,
}

impl View for KeyList {
    type V = Seq<SessionKeyView>;

    closed spec fn view(&self) -> Seq<SessionKeyView> {
        key_views(self.keys@)
    }
}

impl KeyList {
    #[verifier::type_invariant]
    spec fn wf(self) -> bool {
        key_views(self.keys@).no_duplicates()
    }

    fn new() -> (r: Self)
        ensures
            r@ == Seq::<SessionKeyView>::empty(),
    {
        let r = KeyList { keys: Vec::new() };
        assert(r@ =~= Seq::<SessionKeyView>::empty());
        r
    }

    fn len(&self) -> (n: usize)
        ensures
            n == self@.len(),
            self@.no_duplicates(),
    {
        proof {
            use_type_invariant(self);
        }
        self.keys.len()
    }

    fn get(&self, i: usize) -> (k: &SessionKey)
        requires
            i < self@.len(),
        ensures
            k@ == self@[i as int],
    {
        &self.keys[i]
    }

    /// Where `key` stands in the list.
    fn find(&self, key: &SessionKey) -> (r: Option<usize>)
        ensures
            self@.no_duplicates(),
            match r {
                Some(i) => i < self@.len() && self@[i as int] == key@,
                None => !self@.contains(key@),
            },
    {
        proof {
            use_type_invariant(self);
        }
        let mut i: usize = 0;
        while i < self.keys.len()
            invariant
                i <= self.keys@.len(),
                self@.no_duplicates(),
                forall|j: int| 0 <= j < i ==> #[trigger] self@[j] != key@,
            decreases self.keys@.len() - i,
        {
            if self.keys[i].same_as(key) {
                return Some(i);
            }
            i += 1;
        }
        None
    }

    fn push(&mut self, key: SessionKey)
        requires
            !old(self)@.contains(key@),
        ensures
            final(self)@ == old(self)@.push(key@),
    {
        proof {
            use_type_invariant(&*self);
        }
        let ghost before = self@;
        let mut taken = KeyList::new();
        std::mem::swap(&mut taken, self);
        let KeyList { mut keys } = taken;
        keys.push(key);
        assert(key_views(keys@) =~= before.push(key@));
        *self = KeyList { keys };
    }

    fn remove(&mut self, i: usize)
        requires
            i < old(self)@.len(),
        ensures
            final(self)@ == old(self)@.remove(i as int),
    {
        proof {
            use_type_invariant(&*self);
        }
        let ghost before = self@;
        let mut taken = KeyList::new();
        std::mem::swap(&mut taken, self);
        let KeyList { mut keys } = taken;
        let _gone = keys.remove(i);
        assert(key_views(keys@) =~= before.remove(i as int));
        *self = KeyList { keys };
    }

    fn truncate(&mut self, n: usize)
        ensures
            final(self)@ == if n <= old(self)@.len() { old(self)@.take(n as int) } else { old(self)@ },
    {
        proof {
            use_type_invariant(&*self);
        }
        let ghost before = self@;
        let mut taken = KeyList::new();
        std::mem::swap(&mut taken, self);
        let KeyList { mut keys } = taken;
        keys.truncate(n);
        assert(key_views(keys@) =~= if n <= before.len() { before.take(n as int) } else { before });
        *self = KeyList { keys };
    }
}

/// A map from sessions to values, viewed as a map to the values' views.
pub struct SessionMap<V: View> {
    keys: KeyList,
    values: Vec<V>,
}

impl<V: View> View for SessionMap<V> {
    type V = Map<SessionKeyView, V::V>;

    closed spec fn view(&self) -> Map<SessionKeyView, V::V> {
        Map::new(
            |k: SessionKeyView| self.entries().contains(k),
            |k: SessionKeyView| self.values@[self.entries().index_of(k)]@,
        )
    }
}

impl<V: View> SessionMap<V> {
    /// The keys that have a value, in the order they were entered.
    pub closed spec fn entries(self) -> Seq<SessionKeyView> {
        if self.keys@.len() <= self.values@.len() { self.keys@ } else { self.keys@.take(self.values@.len() as int) }
    }

    proof fn lemma_entry(self, i: int)
        requires
            self.keys@.no_duplicates(),
            0 <= i < self.entries().len(),
        ensures
            self@.contains_key(self.entries()[i]),
            self@[self.entries()[i]] == self.values@[i]@,
    {
        let k = self.entries()[i];
        assert(self.entries().contains(k));
        let p = self.entries().index_of(k);
        assert(self.keys@[p] == self.keys@[i]);
        assert(p == i);
    }

    /// An empty map.
    pub fn new() -> (r: Self)
        ensures
            r@ == Map::<SessionKeyView, V::V>::empty(),
    {
        let r = SessionMap { keys: KeyList::new(), values: Vec::new() };
        assert(r@ =~= Map::<SessionKeyView, V::V>::empty());
        r
    }

    fn position(&self, key: &SessionKey) -> (r: Option<usize>)
        ensures
            self.keys@.no_duplicates(),
            match r {
                Some(i) => i < self.entries().len() && self.entries()[i as int] == key@ && self@.contains_key(key@)
                    && self@[key@] == self.values@[i as int]@,
                None => !self@.contains_key(key@),
            },
    {
        match self.keys.find(key) {
            Some(i) => {
                if i < self.values.len() {
                    proof {
                        assert(self.entries()[i as int] == key@);
                        self.lemma_entry(i as int);
                    }
                    Some(i)
                } else {
                    proof {
                        if self.entries().contains(key@) {
                            let j = self.entries().index_of(key@);
                            assert(self.keys@[j] == self.keys@[i as int]);
                        }
                    }
                    None
                }
            },
            None => {
                proof {
                    if self.entries().contains(key@) {
                        let j = self.entries().index_of(key@);
                        assert(self.keys@[j] == key@);
                    }
                }
                None
            },
        }
    }

    /// Whether the session is known.
    pub fn contains_key(&self, key: &SessionKey) -> (r: bool)
        ensures
            r == self@.contains_key(key@),
    {
        self.position(key).is_some()
    }

    /// The session's value.
    pub fn get(&self, key: &SessionKey) -> (r: Option<&V>)
        ensures
            match r {
                Some(v) => self@.contains_key(key@) && (*v)@ == self@[key@],
                None => !self@.contains_key(key@),
            },
    {
        match self.position(key) {
            Some(i) => Some(&self.values[i]),
            None => None,
        }
    }

    /// The session's value, to be changed in place.
    pub fn get_mut(&mut self, key: &SessionKey) -> (r: Option<&mut V>)
        ensures
            match r {
                Some(v) => {
                    &&& old(self)@.contains_key(key@)
                    &&& (*v)@ == old(self)@[key@]
                    &&& final(self)@ == old(self)@.insert(key@, (*final(v))@)
                },
                None => !old(self)@.contains_key(key@) && final(self)@ == old(self)@,
            },
    {
        match self.position(key) {
            Some(i) => {
                let ghost before = *self;
                let v = &mut self.values[i];
                proof {
                    let after = SessionMap { keys: before.keys, values: after_borrow(self).values };
                    before.lemma_update(after, i as int, key@);
                }
                Some(v)
            },
            None => None,
        }
    }

    proof fn lemma_update(self, after: Self, i: int, k: SessionKeyView)
        requires
            self.keys@.no_duplicates(),
            after.keys@ == self.keys@,
            0 <= i < self.entries().len(),
            self.entries()[i] == k,
            after.values@.len() == self.values@.len(),
            forall|j: int| 0 <= j < self.values@.len() && j != i ==> after.values@[j] == self.values@[j],
        ensures
            after@ == self@.insert(k, after.values@[i]@),
    {
        assert(after.entries() == self.entries());
        self.lemma_entry(i);
        after.lemma_entry(i);
        assert forall|key: SessionKeyView| after@.contains_key(key) implies #[trigger] after@[key] == self@.insert(
            k,
            after.values@[i]@,
        )[key] by {
            let j = after.entries().index_of(key);
            after.lemma_entry(j);
            self.lemma_entry(j);
        }
        assert(after@ =~= self@.insert(k, after.values@[i]@));
    }

    /// Drops whatever has no counterpart.
    fn settle(&mut self)
        ensures
            final(self)@ == old(self)@,
            final(self).keys@.len() == final(self).values@.len(),
            final(self).keys@ == old(self).entries(),
            final(self).keys@.no_duplicates(),
            final(self).values@ == old(self).values@.take(old(self).entries().len() as int),
    {
        let n: usize = self.keys.len();
        let m: usize = self.values.len();
        let ghost before = *self;
        self.keys.truncate(m);
        self.values.truncate(n);
        let k: usize = self.keys.len();
        assert(self.keys@ =~= before.entries());
        assert(self.values@ =~= before.values@.take(before.entries().len() as int));
        assert(self.entries() =~= before.entries());
        assert(self@ =~= before@) by {
            assert forall|key: SessionKeyView| self@.contains_key(key) implies #[trigger] self@[key] == before@[key] by {
                let j = self.entries().index_of(key);
                before.lemma_entry(j);
                self.lemma_entry(j);
            }
        }
    }

    /// Sets the session's value.
    pub fn insert(&mut self, key: SessionKey, value: V)
        ensures
            final(self)@ == old(self)@.insert(key@, value@),
    {
        self.settle();
        let ghost before = *self;
        match self.position(&key) {
            Some(i) => {
                self.values.set(i, value);
                proof {
                    before.lemma_update(*self, i as int, key@);
                }
            },
            None => {
                proof {
                    if self.keys@.contains(key@) {
                        assert(self.entries().contains(key@));
                    }
                }
                self.keys.push(key);
                self.values.push(value);
                let k: usize = self.keys.len();
                proof {
                    let i = before.keys@.len() as int;
                    assert(self.entries() =~= before.entries().push(key@));
                    self.lemma_entry(i);
                    assert forall|other: SessionKeyView| #[trigger] self@.contains_key(other) <==> before@.insert(
                        key@,
                        value@,
                    ).contains_key(other) by {
                        if before.entries().contains(other) {
                            let j = before.entries().index_of(other);
                            assert(self.entries()[j] == other);
                        }
                        if self.entries().contains(other) && other != key@ {
                            let j = self.entries().index_of(other);
                            assert(before.entries()[j] == other);
                        }
                    }
                    assert forall|other: SessionKeyView| self@.contains_key(other) implies #[trigger] self@[other]
                        == before@.insert(key@, value@)[other] by {
                        let j = self.entries().index_of(other);
                        self.lemma_entry(j);
                        if other != key@ {
                            assert(before.entries()[j] == other);
                            before.lemma_entry(j);
                        }
                    }
                    assert(self@ =~= before@.insert(key@, value@));
                }
            },
        }
    }

    /// Forgets the session and hands its value out.
    pub fn remove(&mut self, key: &SessionKey) -> (r: Option<V>)
        ensures
            final(self)@ == old(self)@.remove(key@),
            match r {
                Some(v) => old(self)@.contains_key(key@) && v@ == old(self)@[key@],
                None => !old(self)@.contains_key(key@),
            },
    {
        self.settle();
        let ghost before = *self;
        match self.position(key) {
            Some(i) => {
                self.keys.remove(i);
                let v = self.values.remove(i);
                let k: usize = self.keys.len();
                proof {
                    assert(self.entries() =~= before.entries().remove(i as int));
                    assert forall|other: SessionKeyView| #[trigger] self@.contains_key(other) <==> before@.remove(
                        key@,
                    ).contains_key(other) by {
                        if before.entries().contains(other) && other != key@ {
                            let j = before.entries().index_of(other);
                            let m = if j < i { j } else { j - 1 };
                            assert(self.entries()[m] == other);
                        }
                        if self.entries().contains(other) {
                            let j = self.entries().index_of(other);
                            let m = if j < i { j } else { j + 1 };
                            assert(before.entries()[m] == other);
                            assert(before.keys@[m] != before.keys@[i as int]);
                        }
                    }
                    assert forall|other: SessionKeyView| self@.contains_key(other) implies #[trigger] self@[other]
                        == before@.remove(key@)[other] by {
                        let j = self.entries().index_of(other);
                        self.lemma_entry(j);
                        let m = if j < i { j } else { j + 1 };
                        assert(before.entries()[m] == other);
                        before.lemma_entry(m);
                    }
                    assert(self@ =~= before@.remove(key@));
                }
                Some(v)
            },
            None => {
                assert(self@ =~= self@.remove(key@));
                None
            },
        }
    }

    /// The sessions, in the order they were entered.
    pub fn sessions(&self) -> (r: Vec<SessionKey>)
        ensures
            key_views(r@).no_duplicates(),
            forall|k: SessionKeyView| #[trigger] self@.contains_key(k) <==> key_views(r@).contains(k),
    {
        let mut out: Vec<SessionKey> = Vec::new();
        let n: usize = self.keys.len();
        let m: usize = self.values.len();
        let count: usize = if n <= m { n } else { m };
        let mut i: usize = 0;
        while i < count
            invariant
                i <= count,
                count == self.entries().len(),
                count <= self.keys@.len(),
                key_views(out@) =~= self.keys@.take(i as int),
            decreases count - i,
        {
            let key = self.keys.get(i).duplicate();
            let ghost before = out@;
            out.push(key);
            assert(key_views(out@) =~= key_views(before).push(key@));
            i += 1;
            assert(key_views(out@) =~= self.keys@.take(i as int));
        }
        assert(key_views(out@) =~= self.entries());
        out
    }
}

} // verus!
