//! A small map from text keys to values, kept as a list of pairs.
use vstd::prelude::*;

verus! {

/// Pairs of a key and a value, no key twice.
pub struct KeyedVec<V: View> {
    items: Vec<(String, V)>,
}

pub open spec fn keys_unique<V>(s: Seq<(String, V)>) -> bool {
    forall|i: int, j: int| 0 <= i < j < s.len() ==> (#[trigger] s[i]).0@ != (#[trigger] s[j]).0@
}

pub open spec fn has_key<V>(s: Seq<(String, V)>, k: Seq<char>) -> bool {
    exists|i: int| 0 <= i < s.len() && (#[trigger] s[i]).0@ == k
}

pub open spec fn pairs_map<V: View>(s: Seq<(String, V)>) -> Map<Seq<char>, V::V> {
    Map::new(
        |k: Seq<char>| has_key(s, k),
        |k: Seq<char>| s[choose|i: int| 0 <= i < s.len() && (#[trigger] s[i]).0@ == k].1@,
    )
}

proof fn lemma_lookup<V: View>(s: Seq<(String, V)>, i: int)
    requires
        keys_unique(s),
        0 <= i < s.len(),
    ensures
        pairs_map(s).contains_key(s[i].0@),
        pairs_map(s)[s[i].0@] == s[i].1@,
{
    let k = s[i].0@;
    assert(has_key(s, k));
    let j = choose|j: int| 0 <= j < s.len() && (#[trigger] s[j]).0@ == k;
    if j < i {
        assert(s[j].0@ != s[i].0@);
    } else if j > i {
        assert(s[i].0@ != s[j].0@);
    }
}

proof fn lemma_map_ext<V: View>(s: Seq<(String, V)>, m: Map<Seq<char>, V::V>)
    requires
        keys_unique(s),
        forall|k: Seq<char>| m.contains_key(k) <==> has_key(s, k),
        forall|i: int| 0 <= i < s.len() ==> m[(#[trigger] s[i]).0@] == s[i].1@,
    ensures
        pairs_map(s) == m,
{
    assert forall|k: Seq<char>| #[trigger] pairs_map(s).contains_key(k) implies pairs_map(s)[k]
        == m[k] by {
        let i = choose|i: int| 0 <= i < s.len() && (#[trigger] s[i]).0@ == k;
        lemma_lookup(s, i);
    }
    assert(pairs_map(s) =~= m);
}

impl<V: View> View for KeyedVec<V> {
    type V = Map<Seq<char>, V::V>;

    closed spec fn view(&self) -> Map<Seq<char>, V::V> {
        pairs_map(self.items@)
    }
}

impl<V: View> KeyedVec<V> {
    #[verifier::type_invariant]
    closed spec fn inv(self) -> bool {
        keys_unique(self.items@)
    }

    pub fn new() -> (r: Self)
        ensures
            r@ == Map::<Seq<char>, V::V>::empty(),
    {
        let r = KeyedVec { items: Vec::new() };
        assert(pairs_map(r.items@) =~= Map::<Seq<char>, V::V>::empty());
        r
    }

    /// The position of `key`, if present.
    fn find(&self, key: &str) -> (r: Option<usize>)
        ensures
            match r {
                Some(i) => i < self.items@.len() && self.items@[i as int].0@ == key@,
                None => !has_key(self.items@, key@),
            },
    {
        let mut i: usize = 0;
        while i < self.items.len()
            invariant
                i <= self.items.len(),
                forall|j: int| 0 <= j < i ==> (#[trigger] self.items@[j]).0@ != key@,
            decreases self.items.len() - i,
        {
            let k: &str = self.items[i].0.as_str();
            if crate::text::str_eq_chars(k, &crate::text::chars_of(key)) {
                return Some(i);
            }
            i = i + 1;
        }
        None
    }

    /// Whether `key` has a value.
    pub fn contains(&self, key: &str) -> (r: bool)
        ensures
            r == self@.contains_key(key@),
    {
        self.find(key).is_some()
    }

    /// The value of `key`, if present.
    pub fn get(&self, key: &str) -> (r: Option<&V>)
        ensures
            match r {
                Some(v) => self@.contains_key(key@) && self@[key@] == v@,
                None => !self@.contains_key(key@),
            },
    {
        proof {
            use_type_invariant(self);
        }
        match self.find(key) {
            Some(i) => {
                proof {
                    lemma_lookup(self.items@, i as int);
                }
                Some(&self.items[i].1)
            },
            None => None,
        }
    }

    /// Removes `key` and hands back its value.
    pub fn take(&mut self, key: &str) -> (r: Option<V>)
        ensures
            final(self)@ == old(self)@.remove(key@),
            match r {
                Some(v) => old(self)@.contains_key(key@) && old(self)@[key@] == v@,
                None => !old(self)@.contains_key(key@),
            },
    {
        proof {
            use_type_invariant(&*self);
        }
        match self.find(key) {
            Some(i) => {
                let ghost s = self.items@;
                proof {
                    lemma_lookup(s, i as int);
                }
                let mut items: Vec<(String, V)> = Vec::new();
                std::mem::swap(&mut items, &mut self.items);
                let (_, v) = items.remove(i);
                proof {
                    let a = items@;
                    assert(a == s.remove(i as int));
                    assert(keys_unique(a)) by {
                        assert forall|x: int, y: int| 0 <= x < y < a.len() implies (#[trigger] a[x]).0@
                            != (#[trigger] a[y]).0@ by {
                            let sx = if x < i { x } else { x + 1 };
                            let sy = if y < i { y } else { y + 1 };
                            assert(a[x] == s[sx] && a[y] == s[sy]);
                        }
                    }
                    let m = pairs_map(s).remove(key@);
                    assert forall|k: Seq<char>| m.contains_key(k) <==> has_key(a, k) by {
                        if m.contains_key(k) {
                            let j = choose|j: int| 0 <= j < s.len() && (#[trigger] s[j]).0@ == k;
                            if j < i {
                                assert(a[j] == s[j]);
                            } else {
                                assert(j != i);
                                assert(a[j - 1] == s[j]);
                            }
                        }
                        if has_key(a, k) {
                            let j = choose|j: int| 0 <= j < a.len() && (#[trigger] a[j]).0@ == k;
                            let sj = if j < i { j } else { j + 1 };
                            assert(a[j] == s[sj]);
                            assert(has_key(s, k));
                            assert(sj != i ==> s[sj].0@ != s[i as int].0@);
                        }
                    }
                    assert forall|x: int| 0 <= x < a.len() implies m[(#[trigger] a[x]).0@] == a[x].1@ by {
                        let sx = if x < i { x } else { x + 1 };
                        assert(a[x] == s[sx]);
                        lemma_lookup(s, sx);
                    }
                    lemma_map_ext(a, m);
                }
                self.items = items;
                Some(v)
            },
            None => {
                proof {
                    assert(pairs_map(self.items@).remove(key@) =~= pairs_map(self.items@));
                }
                None
            },
        }
    }

    /// Sets the value of `key`, replacing the one it had.
    pub fn set(&mut self, key: String, v: V)
        ensures
            final(self)@ == old(self)@.insert(key@, v@),
    {
        let ghost k = key@;
        let ghost vv = v@;
        let _ = self.take(key.as_str());
        proof {
            use_type_invariant(&*self);
        }
        let ghost s = self.items@;
        let ghost m0 = pairs_map(s);
        assert(!pairs_map(s).dom().contains(k));
        assert(!has_key(s, k));
        let mut items: Vec<(String, V)> = Vec::new();
        std::mem::swap(&mut items, &mut self.items);
        items.push((key, v));
        proof {
            let a = items@;
            assert(a == s.push(a[s.len() as int]));
            assert(keys_unique(a)) by {
                assert forall|x: int, y: int| 0 <= x < y < a.len() implies (#[trigger] a[x]).0@ != (
                #[trigger] a[y]).0@ by {
                    if y == s.len() {
                        assert(a[x] == s[x]);
                    } else {
                        assert(a[x] == s[x] && a[y] == s[y]);
                    }
                }
            }
            let m = m0.insert(k, vv);
            assert forall|q: Seq<char>| m.contains_key(q) <==> has_key(a, q) by {
                if m.contains_key(q) && q != k {
                    let j = choose|j: int| 0 <= j < s.len() && (#[trigger] s[j]).0@ == q;
                    assert(a[j] == s[j]);
                }
                if q == k {
                    assert(a[s.len() as int].0@ == k);
                }
                if has_key(a, q) {
                    let j = choose|j: int| 0 <= j < a.len() && (#[trigger] a[j]).0@ == q;
                    if j < s.len() {
                        assert(a[j] == s[j]);
                    }
                }
            }
            assert forall|x: int| 0 <= x < a.len() implies m[(#[trigger] a[x]).0@] == a[x].1@ by {
                if x < s.len() {
                    assert(a[x] == s[x]);
                    lemma_lookup(s, x);
                }
            }
            lemma_map_ext(a, m);
        }
        self.items = items;
    }

    /// Removes every key.
    pub fn clear(&mut self)
        ensures
            final(self)@ == Map::<Seq<char>, V::V>::empty(),
    {
        self.items = Vec::new();
        assert(pairs_map(self.items@) =~= Map::<Seq<char>, V::V>::empty());
    }

    /// The pairs, each key once.
    pub fn pairs(&self) -> (r: &Vec<(String, V)>)
        ensures
            pairs_map(r@) == self@,
            keys_unique(r@),
    {
        proof {
            use_type_invariant(self);
        }
        &self.items
    }
}

} // verus!
