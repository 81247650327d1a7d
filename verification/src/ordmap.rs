//! Ordered collections with mathematical views: a map and a set whose entries are
//! kept in ascending key order, so that every walk over them is deterministic.
use vstd::prelude::*;

verus! {

/// A key with a total order, given by an injective integer rank.
pub trait OrdKey: Copy {
    spec fn rank(self) -> int;

    proof fn rank_is_injective(a: Self, b: Self)
        requires
            a.rank() == b.rank(),
        ensures
            a == b,
    ;

    fn to_rank(self) -> (r: u64)
        ensures
            r == self.rank(),
    ;
}

impl OrdKey for u64 {
    open spec fn rank(self) -> int {
        self as int
    }

    proof fn rank_is_injective(a: Self, b: Self) {
    }

    fn to_rank(self) -> (r: u64) {
        self
    }
}

/// Whether `s` lists keys in strictly ascending rank order.
pub open spec fn ascending<K: OrdKey>(s: Seq<K>) -> bool {
    forall|i: int, j: int| 0 <= i < j < s.len() ==> (#[trigger] s[i]).rank() < (#[trigger] s[j]).rank()
}

/// Whether `s` lists exactly the keys of `dom`, each once, in ascending order.
pub open spec fn lists<K: OrdKey>(s: Seq<K>, dom: Set<K>) -> bool {
    &&& ascending(s)
    &&& forall|k: K| #[trigger] dom.contains(k) <==> s.contains(k)
}

/// The keys of `dom` in ascending order.
pub open spec fn listing<K: OrdKey>(dom: Set<K>) -> Seq<K> {
    choose|s: Seq<K>| lists(s, dom)
}

/// A finite set that is not empty has a key of greatest rank.
proof fn lemma_greatest<K: OrdKey>(dom: Set<K>) -> (top: K)
    requires
        dom.finite(),
        dom.len() > 0,
    ensures
        dom.contains(top),
        forall|k: K| #[trigger] dom.contains(k) ==> k.rank() <= top.rank(),
    decreases dom.len(),
{
    let a = dom.choose();
    let rest = dom.remove(a);
    if rest.len() == 0 {
        assert forall|k: K| #[trigger] dom.contains(k) implies k.rank() <= a.rank() by {
            if k != a {
                assert(rest.contains(k));
            }
        }
        a
    } else {
        let b = lemma_greatest(rest);
        let top = if a.rank() >= b.rank() { a } else { b };
        assert forall|k: K| #[trigger] dom.contains(k) implies k.rank() <= top.rank() by {
            if k != a {
                assert(rest.contains(k));
            }
        }
        top
    }
}

/// A finite set has an ascending listing.
pub proof fn lemma_listing_exists<K: OrdKey>(dom: Set<K>)
    requires
        dom.finite(),
    ensures
        lists(listing(dom), dom),
    decreases dom.len(),
{
    if dom.len() == 0 {
        assert(lists(Seq::<K>::empty(), dom));
    } else {
        let top = lemma_greatest(dom);
        let rest = dom.remove(top);
        lemma_listing_exists(rest);
        let fewer = listing(rest);
        let all = fewer.push(top);
        assert forall|i: int, j: int| 0 <= i < j < all.len() implies (#[trigger] all[i]).rank() < (#[trigger] all[j]).rank() by {
            if j == fewer.len() {
                assert(fewer.contains(fewer[i]));
                assert(rest.contains(fewer[i]));
                assert(dom.contains(fewer[i]));
                if fewer[i].rank() == top.rank() {
                    K::rank_is_injective(fewer[i], top);
                }
            }
        }
        assert forall|k: K| #[trigger] dom.contains(k) <==> all.contains(k) by {
            if dom.contains(k) {
                if k == top {
                    assert(all[fewer.len() as int] == k);
                } else {
                    assert(rest.contains(k));
                    let i = choose|i: int| 0 <= i < fewer.len() && fewer[i] == k;
                    assert(all[i] == k);
                }
            }
            if all.contains(k) {
                let i = choose|i: int| 0 <= i < all.len() && all[i] == k;
                if i < fewer.len() {
                    assert(fewer.contains(k));
                    assert(rest.contains(k));
                }
            }
        }
        assert(lists(all, dom));
    }
}

/// A set has at most one ascending listing.
pub proof fn lemma_listing_unique<K: OrdKey>(s: Seq<K>, t: Seq<K>, dom: Set<K>)
    requires
        lists(s, dom),
        lists(t, dom),
    ensures
        s == t,
    decreases s.len(),
{
    if s.len() == 0 {
        if t.len() > 0 {
            assert(t.contains(t[0]));
            assert(dom.contains(t[0]));
            assert(s.contains(t[0]));
        }
        assert(s =~= t);
    } else {
        let a = s.last();
        assert(s.contains(a));
        assert(dom.contains(a));
        assert(t.contains(a));
        let b = t.last();
        assert(t.contains(b));
        assert(dom.contains(b));
        assert(s.contains(b));
        let i = choose|i: int| 0 <= i < s.len() && s[i] == b;
        let j = choose|j: int| 0 <= j < t.len() && t[j] == a;
        assert(b.rank() <= a.rank());
        assert(a.rank() <= b.rank());
        K::rank_is_injective(a, b);
        let d = dom.remove(a);
        let s1 = s.drop_last();
        let t1 = t.drop_last();
        assert forall|k: K| #[trigger] d.contains(k) <==> s1.contains(k) by {
            if d.contains(k) {
                assert(s.contains(k));
                let n = choose|n: int| 0 <= n < s.len() && s[n] == k;
                assert(s1[n] == k);
            }
            if s1.contains(k) {
                let n = choose|n: int| 0 <= n < s1.len() && s1[n] == k;
                assert(s[n] == k);
                assert(s.contains(k));
                assert(s[n].rank() < s[s.len() - 1].rank());
            }
        }
        assert forall|k: K| #[trigger] d.contains(k) <==> t1.contains(k) by {
            if d.contains(k) {
                assert(t.contains(k));
                let n = choose|n: int| 0 <= n < t.len() && t[n] == k;
                assert(t1[n] == k);
            }
            if t1.contains(k) {
                let n = choose|n: int| 0 <= n < t1.len() && t1[n] == k;
                assert(t[n] == k);
                assert(t.contains(k));
                assert(t[n].rank() < t[t.len() - 1].rank());
            }
        }
        lemma_listing_unique(s1, t1, d);
        assert(s =~= s1.push(a));
        assert(t =~= t1.push(b));
    }
}

/// The listing of a set is whatever lists it.
pub proof fn lemma_listing<K: OrdKey>(s: Seq<K>, dom: Set<K>)
    requires
        lists(s, dom),
    ensures
        listing(dom) == s,
{
    lemma_listing_unique(s, listing(dom), dom);
}

/// A listed set is finite, and as large as its listing is long.
pub proof fn lemma_listed_len<K: OrdKey>(s: Seq<K>, dom: Set<K>)
    requires
        lists(s, dom),
    ensures
        dom.finite(),
        dom.len() == s.len(),
{
    assert(s.no_duplicates()) by {
        assert forall|i: int, j: int| 0 <= i < s.len() && 0 <= j < s.len() && i != j implies s[i] != s[j] by {
            if i < j {
                assert(s[i].rank() < s[j].rank());
            } else {
                assert(s[j].rank() < s[i].rank());
            }
        }
    }
    s.unique_seq_to_set();
    assert(s.to_set() =~= dom);
    vstd::seq_lib::seq_to_set_is_finite(s);
}

/// A map from ordered keys to values, viewed as a map to the values' views.
pub struct OrdMap<K: OrdKey, V: View> {
    keys: Vec<K>,
    values: Vec<V>,
}

impl<K: OrdKey, V: View> OrdMap<K, V> {
    #[verifier::type_invariant]
    pub closed spec fn wf(self) -> bool {
        &&& self.keys@.len() == self.values@.len()
        &&& ascending(self.keys@)
    }

    spec fn position(self, k: K) -> int {
        choose|i: int| 0 <= i < self.keys@.len() && self.keys@[i] == k
    }

    proof fn lemma_entry(self, i: int)
        requires
            self.wf(),
            0 <= i < self.keys@.len(),
        ensures
            self@.contains_key(self.keys@[i]),
            self@[self.keys@[i]] == self.values@[i]@,
            self.position(self.keys@[i]) == i,
    {
        let k = self.keys@[i];
        assert(self.keys@.contains(k));
        let p = self.position(k);
        assert(0 <= p < self.keys@.len() && self.keys@[p] == k);
        if p < i {
            assert(self.keys@[p].rank() < self.keys@[i].rank());
        }
        if i < p {
            assert(self.keys@[i].rank() < self.keys@[p].rank());
        }
    }

    proof fn lemma_absent(self, k: K)
        requires
            self.wf(),
            forall|i: int| 0 <= i < self.keys@.len() ==> self.keys@[i] != k,
        ensures
            !self@.contains_key(k),
    {
    }

    proof fn lemma_lists(self)
        requires
            self.wf(),
        ensures
            lists(self.keys@, self@.dom()),
            listing(self@.dom()) == self.keys@,
    {
        lemma_listing(self.keys@, self@.dom());
    }

    /// An empty map.
    pub fn new() -> (r: Self)
        ensures
            r@ == Map::<K, V::V>::empty(),
    {
        let r = OrdMap { keys: Vec::new(), values: Vec::new() };
        assert(r@ =~= Map::<K, V::V>::empty());
        r
    }

    /// How many keys the map holds.
    pub fn len(&self) -> (n: usize)
        ensures
            n == self@.dom().len(),
            self@.dom().finite(),
            n == listing(self@.dom()).len(),
            lists(listing(self@.dom()), self@.dom()),
    {
        proof {
            use_type_invariant(self);
            self.lemma_lists();
            lemma_listed_len(self.keys@, self@.dom());
        }
        self.keys.len()
    }

    /// Whether the map holds no key.
    pub fn is_empty(&self) -> (r: bool)
        ensures
            r == (self@.dom() =~= Set::empty()),
    {
        proof {
            use_type_invariant(self);
            self.lemma_lists();
            if self.keys@.len() > 0 {
                self.lemma_entry(0);
            }
        }
        self.keys.len() == 0
    }

    /// Index of the first key whose rank is not below `k`'s, and whether it is `k`.
    fn search(&self, k: K) -> (r: (usize, bool))
        ensures
            self.wf(),
            r.0 <= self.keys@.len(),
            r.1 ==> r.0 < self.keys@.len() && self.keys@[r.0 as int] == k,
            !r.1 ==> forall|i: int| r.0 <= i < self.keys@.len() ==> (#[trigger] self.keys@[i]).rank() > k.rank(),
            forall|i: int| 0 <= i < r.0 ==> (#[trigger] self.keys@[i]).rank() < k.rank(),
            r.1 == self@.contains_key(k),
            r.1 ==> self@[k] == self.values@[r.0 as int]@,
    {
        proof {
            use_type_invariant(self);
        }
        let target: u64 = k.to_rank();
        let mut low: usize = 0;
        let mut high: usize = self.keys.len();
        while low < high
            invariant
                self.wf(),
                target == k.rank(),
                low <= high <= self.keys@.len(),
                forall|j: int| 0 <= j < low ==> (#[trigger] self.keys@[j]).rank() < k.rank(),
                forall|j: int| high <= j < self.keys@.len() ==> (#[trigger] self.keys@[j]).rank() > k.rank(),
            decreases high - low,
        {
            let mid: usize = low + (high - low) / 2;
            let here: u64 = self.keys[mid].to_rank();
            if here == target {
                proof {
                    K::rank_is_injective(self.keys@[mid as int], k);
                    self.lemma_entry(mid as int);
                }
                return (mid, true);
            }
            if here > target {
                assert forall|j: int| mid <= j < self.keys@.len() implies (#[trigger] self.keys@[j]).rank() > k.rank() by {
                    if j > mid {
                        assert(self.keys@[mid as int].rank() < self.keys@[j].rank());
                    }
                }
                high = mid;
            } else {
                assert forall|j: int| 0 <= j <= mid implies (#[trigger] self.keys@[j]).rank() < k.rank() by {
                    if j < mid {
                        assert(self.keys@[j].rank() < self.keys@[mid as int].rank());
                    }
                }
                low = mid + 1;
            }
        }
        proof {
            self.lemma_absent(k);
        }
        (low, false)
    }

    /// Whether the map holds `k`.
    pub fn contains_key(&self, k: K) -> (r: bool)
        ensures
            r == self@.contains_key(k),
    {
        self.search(k).1
    }

    /// The value at `k`.
    pub fn get(&self, k: K) -> (r: Option<&V>)
        ensures
            r is Some == self@.contains_key(k),
            r is Some ==> (*r->0)@ == self@[k],
    {
        let (i, found) = self.search(k);
        if found {
            Some(&self.values[i])
        } else {
            None
        }
    }

    /// The key at position `i` of the ascending order.
    pub fn key_at(&self, i: usize) -> (k: K)
        requires
            i < listing(self@.dom()).len(),
        ensures
            k == listing(self@.dom())[i as int],
            self@.contains_key(k),
    {
        proof {
            use_type_invariant(self);
            self.lemma_lists();
            self.lemma_entry(i as int);
        }
        self.keys[i]
    }

    /// The value at position `i` of the ascending key order.
    pub fn value_at(&self, i: usize) -> (v: &V)
        requires
            i < listing(self@.dom()).len(),
        ensures
            self@.contains_key(listing(self@.dom())[i as int]),
            (*v)@ == self@[listing(self@.dom())[i as int]],
    {
        proof {
            use_type_invariant(self);
            self.lemma_lists();
            self.lemma_entry(i as int);
        }
        &self.values[i]
    }

    /// The keys, in ascending order.
    pub fn keys(&self) -> (r: Vec<K>)
        ensures
            r@ == listing(self@.dom()),
            lists(r@, self@.dom()),
    {
        proof {
            use_type_invariant(self);
            self.lemma_lists();
        }
        let mut out: Vec<K> = Vec::new();
        let mut i: usize = 0;
        while i < self.keys.len()
            invariant
                i <= self.keys@.len(),
                out@ == self.keys@.take(i as int),
            decreases self.keys@.len() - i,
        {
            out.push(self.keys[i]);
            i += 1;
            assert(out@ =~= self.keys@.take(i as int));
        }
        assert(out@ =~= self.keys@);
        out
    }

    /// Sets the value at `k`.
    pub fn insert(&mut self, k: K, v: V)
        ensures
            final(self)@ == old(self)@.insert(k, v@),
    {
        let (i, found) = self.search(k);
        let ghost before = *self;
        let mut taken = OrdMap { keys: Vec::new(), values: Vec::new() };
        std::mem::swap(&mut taken, self);
        let OrdMap { mut keys, mut values } = taken;
        if found {
            values.set(i, v);
        } else {
            keys.insert(i, k);
            values.insert(i, v);
        }
        let after = OrdMap { keys, values };
        proof {
            assert forall|key: K| after@.contains_key(key) <==> #[trigger] before@.insert(k, v@).contains_key(key) by {
                if after@.contains_key(key) {
                    let n = after.position(key);
                    assert(after.keys@[n] == key);
                    if key != k {
                        let m = if found || n < i { n } else { n - 1 };
                        assert(before.keys@[m] == key);
                        before.lemma_entry(m);
                    }
                }
                if before@.contains_key(key) {
                    let n = before.position(key);
                    assert(before.keys@[n] == key);
                    let m = if found || n < i { n } else { n + 1 };
                    assert(after.keys@[m] == key);
                }
                if key == k {
                    assert(after.keys@[i as int] == k);
                }
            }
            assert forall|key: K| after@.contains_key(key) implies #[trigger] after@[key] == before@.insert(k, v@)[key] by {
                let n = after.position(key);
                assert(0 <= n < after.keys@.len() && after.keys@[n] == key);
                after.lemma_entry(n);
                if key == k {
                    after.lemma_entry(i as int);
                } else {
                    let m = if found || n < i { n } else { n - 1 };
                    assert(before.keys@[m] == key);
                    before.lemma_entry(m);
                }
            }
            assert(after@ =~= before@.insert(k, v@));
        }
        *self = after;
    }

    /// Removes `k` and hands its value out.
    pub fn remove(&mut self, k: K) -> (r: Option<V>)
        ensures
            final(self)@ == old(self)@.remove(k),
            r is Some == old(self)@.contains_key(k),
            r is Some ==> (r->0)@ == old(self)@[k],
    {
        let (i, found) = self.search(k);
        if !found {
            assert(self@.remove(k) =~= self@);
            return None;
        }
        let ghost before = *self;
        let mut taken = OrdMap { keys: Vec::new(), values: Vec::new() };
        std::mem::swap(&mut taken, self);
        let OrdMap { mut keys, mut values } = taken;
        let _k = keys.remove(i);
        let v = values.remove(i);
        let after = OrdMap { keys, values };
        proof {
            assert forall|key: K| after@.contains_key(key) <==> #[trigger] before@.remove(k).contains_key(key) by {
                if after@.contains_key(key) {
                    let n = after.position(key);
                    assert(after.keys@[n] == key);
                    let m = if n < i { n } else { n + 1 };
                    assert(before.keys@[m] == key);
                    before.lemma_entry(m);
                    before.lemma_entry(i as int);
                }
                if before@.contains_key(key) && key != k {
                    let n = before.position(key);
                    assert(before.keys@[n] == key);
                    let m = if n < i { n } else { n - 1 };
                    assert(after.keys@[m] == key);
                }
            }
            assert forall|key: K| after@.contains_key(key) implies #[trigger] after@[key] == before@.remove(k)[key] by {
                let n = after.position(key);
                assert(0 <= n < after.keys@.len() && after.keys@[n] == key);
                after.lemma_entry(n);
                let m = if n < i { n } else { n + 1 };
                assert(before.keys@[m] == key);
                before.lemma_entry(m);
            }
            assert(after@ =~= before@.remove(k));
        }
        *self = after;
        Some(v)
    }
}

impl<K: OrdKey, V: View> View for OrdMap<K, V> {
    type V = Map<K, V::V>;

    closed spec fn view(&self) -> Map<K, V::V> {
        Map::new(|k: K| self.keys@.contains(k), |k: K| self.values@[self.position(k)]@)
    }
}

/// A set of ordered keys.
pub struct OrdSet<K: OrdKey> {
    members: OrdMap<K, ()>,
}

impl<K: OrdKey> View for OrdSet<K> {
    type V = Set<K>;

    closed spec fn view(&self) -> Set<K> {
        self.members@.dom()
    }
}

impl<K: OrdKey> OrdSet<K> {
    /// An empty set.
    pub fn new() -> (r: Self)
        ensures
            r@ == Set::<K>::empty(),
    {
        OrdSet { members: OrdMap::new() }
    }

    /// How many keys the set holds.
    pub fn len(&self) -> (n: usize)
        ensures
            n == self@.len(),
            self@.finite(),
            n == listing(self@).len(),
            lists(listing(self@), self@),
    {
        self.members.len()
    }

    /// Whether the set holds no key.
    pub fn is_empty(&self) -> (r: bool)
        ensures
            r == (self@ =~= Set::empty()),
    {
        self.members.is_empty()
    }

    /// Whether the set holds `k`.
    pub fn contains(&self, k: K) -> (r: bool)
        ensures
            r == self@.contains(k),
    {
        self.members.contains_key(k)
    }

    /// The key at position `i` of the ascending order.
    pub fn key_at(&self, i: usize) -> (k: K)
        requires
            i < listing(self@).len(),
        ensures
            k == listing(self@)[i as int],
            self@.contains(k),
    {
        self.members.key_at(i)
    }

    /// The keys, in ascending order.
    pub fn keys(&self) -> (r: Vec<K>)
        ensures
            r@ == listing(self@),
            lists(r@, self@),
    {
        self.members.keys()
    }

    /// Adds `k`; true where it was not held before.
    pub fn insert(&mut self, k: K) -> (added: bool)
        ensures
            final(self)@ == old(self)@.insert(k),
            added == !old(self)@.contains(k),
    {
        let held = self.members.contains_key(k);
        self.members.insert(k, ());
        !held
    }

    /// Removes `k`; true where it was held.
    pub fn remove(&mut self, k: K) -> (removed: bool)
        ensures
            final(self)@ == old(self)@.remove(k),
            removed == old(self)@.contains(k),
    {
        self.members.remove(k).is_some()
    }
}

} // verus!
