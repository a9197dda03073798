//! A map from strings to values kept as a list of distinct keys, in
//! insertion order.
use vstd::prelude::*;
use crate::text::str_eq;

verus! {

/// A string-keyed map in insertion order. No key occurs twice.
#[derive(Debug)]
pub struct KeyedList<V> {
    entries: Vec<(String, V)>,
}

/// The map that a list of distinct-key pairs denotes.
pub open spec fn map_of<V>(s: Seq<(String, V)>) -> Map<Seq<char>, V>
    decreases s.len(),
{
    if s.len() == 0 {
        Map::empty()
    } else {
        map_of(s.drop_last()).insert(s.last().0@, s.last().1)
    }
}

/// No key occurs twice in `s`.
pub open spec fn distinct_keys<V>(s: Seq<(String, V)>) -> bool {
    forall|i: int, j: int| 0 <= i < j < s.len() ==> (#[trigger] s[i]).0@ != (#[trigger] s[j]).0@
}

/// `k` is the key of some pair of `s`.
pub open spec fn has_key<V>(s: Seq<(String, V)>, k: Seq<char>) -> bool {
    exists|i: int| 0 <= i < s.len() && (#[trigger] s[i]).0@ == k
}

pub proof fn lemma_map_of<V>(s: Seq<(String, V)>)
    requires
        distinct_keys(s),
    ensures
        forall|k: Seq<char>| map_of(s).contains_key(k) <==> has_key(s, k),
        forall|i: int| 0 <= i < s.len() ==> map_of(s)[(#[trigger] s[i]).0@] == s[i].1,
    decreases s.len(),
{
    if s.len() > 0 {
        let p = s.drop_last();
        assert(distinct_keys(p)) by {
            assert forall|i: int, j: int| 0 <= i < j < p.len() implies (#[trigger] p[i]).0@ != (#[trigger] p[j]).0@ by {
                assert(p[i] == s[i] && p[j] == s[j]);
            }
        }
        lemma_map_of(p);
        assert forall|k: Seq<char>| map_of(s).contains_key(k) <==> has_key(s, k) by {
            if has_key(s, k) {
                let i = choose|i: int| 0 <= i < s.len() && (#[trigger] s[i]).0@ == k;
                if i < s.len() - 1 {
                    assert(p[i] == s[i]);
                }
            }
            if has_key(p, k) {
                let i = choose|i: int| 0 <= i < p.len() && (#[trigger] p[i]).0@ == k;
                assert(s[i] == p[i]);
            }
        }
        assert forall|i: int| 0 <= i < s.len() implies map_of(s)[(#[trigger] s[i]).0@] == s[i].1 by {
            if i < s.len() - 1 {
                assert(p[i] == s[i]);
                assert(s[i].0@ != s[s.len() - 1].0@);
            }
        }
    }
}

impl<V> KeyedList<V> {
    /// The list is well formed: no key occurs twice.
    #[verifier::type_invariant]
    spec fn inv(self) -> bool {
        distinct_keys(self.entries@)
    }

    /// The map this list denotes.
    pub closed spec fn view(&self) -> Map<Seq<char>, V> {
        map_of(self.entries@)
    }

    /// The keys in insertion order.
    pub closed spec fn key_seq(&self) -> Seq<Seq<char>> {
        self.entries@.map_values(|p: (String, V)| p.0@)
    }

    /// Every listed key is a key of the map.
    pub proof fn lemma_keys_in_map(&self)
        ensures
            forall|k: int| 0 <= k < self.key_seq().len() ==> self.view().contains_key(#[trigger] self.key_seq()[k]),
    {
        lemma_map_of_has_keys(self.entries@);
        assert forall|k: int| 0 <= k < self.key_seq().len() implies self.view().contains_key(#[trigger] self.key_seq()[k]) by {
            assert(self.key_seq()[k] == self.entries@[k].0@);
        }
    }

    /// An empty map.
    pub fn new() -> (r: Self)
        ensures
            r.view() == Map::<Seq<char>, V>::empty(),
            r.key_seq().len() == 0,
    {
        KeyedList { entries: Vec::new() }
    }

    fn position(&self, key: &str) -> (r: Option<usize>)
        ensures
            match r {
                Some(i) => i < self.entries@.len() && self.entries@[i as int].0@ == key@,
                None => !has_key(self.entries@, key@),
            },
    {
        let mut i: usize = 0;
        while i < self.entries.len()
            invariant
                i <= self.entries@.len(),
                forall|j: int| 0 <= j < i ==> (#[trigger] self.entries@[j]).0@ != key@,
            decreases self.entries@.len() - i,
        {
            if str_eq(self.entries[i].0.as_str(), key) {
                return Some(i);
            }
            i = i + 1;
        }
        None
    }

    /// The value stored under `key`.
    pub fn get(&self, key: &str) -> (r: Option<&V>)
        ensures
            match r {
                Some(v) => self.view().contains_key(key@) && self.view()[key@] == *v,
                None => !self.view().contains_key(key@),
            },
    {
        proof {
            use_type_invariant(self);
            lemma_map_of(self.entries@);
        }
        match self.position(key) {
            Some(i) => {
                proof {
                    let e = self.entries@[i as int];
                    assert(has_key(self.entries@, key@));
                    assert(map_of(self.entries@)[e.0@] == e.1);
                }
                Some(&self.entries[i].1)
            },
            None => None,
        }
    }

    /// Whether `key` is present.
    pub fn contains_key(&self, key: &str) -> (b: bool)
        ensures
            b == self.view().contains_key(key@),
    {
        proof {
            use_type_invariant(self);
            lemma_map_of(self.entries@);
        }
        let p = self.position(key);
        proof {
            if let Some(i) = p {
                assert(has_key(self.entries@, key@) && self.entries@[i as int].0@ == key@);
            }
        }
        p.is_some()
    }

    /// Number of keys.
    pub fn len(&self) -> (n: usize)
        ensures
            self.view().dom().finite(),
            n == self.view().dom().len(),
            n == self.key_seq().len(),
    {
        proof {
            use_type_invariant(self);
            self.lemma_dom_len();
        }
        self.entries.len()
    }

    /// Whether the map is empty.
    pub fn is_empty(&self) -> (b: bool)
        ensures
            b == (self.view().dom().len() == 0),
    {
        self.len() == 0
    }

    /// Stores `value` under `key`, replacing a previous value in place.
    pub fn insert(&mut self, key: String, value: V)
        ensures
            final(self).view() == old(self).view().insert(key@, value),
            old(self).view().contains_key(key@) ==> final(self).key_seq() == old(self).key_seq(),
            !old(self).view().contains_key(key@) ==> final(self).key_seq() == old(self).key_seq().push(key@),
    {
        proof {
            use_type_invariant(&*self);
            lemma_map_of(self.entries@);
        }
        match self.position(key.as_str()) {
            Some(i) => {
                let ghost old_entries = self.entries@;
                let ghost k = key@;
                let mut entries: Vec<(String, V)> = Vec::new();
                std::mem::swap(&mut entries, &mut self.entries);
                entries.set(i, (key, value));
                proof {
                    let s = entries@;
                    assert(distinct_keys(s)) by {
                        assert forall|a: int, b: int| 0 <= a < b < s.len() implies (#[trigger] s[a]).0@ != (#[trigger] s[b]).0@ by {
                            if a != i && b != i {
                                assert(s[a] == old_entries[a] && s[b] == old_entries[b]);
                            } else if a == i {
                                assert(s[b] == old_entries[b]);
                                assert(old_entries[i as int].0@ == k);
                            } else {
                                assert(s[a] == old_entries[a]);
                                assert(old_entries[i as int].0@ == k);
                            }
                        }
                    }
                    lemma_map_of(s);
                    assert(has_key(old_entries, k)) by {
                        assert(old_entries[i as int].0@ == k);
                    }
                    assert forall|q: Seq<char>| map_of(s).contains_key(q) <==> map_of(old_entries).insert(k, value).contains_key(q) by {
                        if has_key(s, q) {
                            let j = choose|j: int| 0 <= j < s.len() && (#[trigger] s[j]).0@ == q;
                            if j != i {
                                assert(old_entries[j] == s[j]);
                            }
                        }
                        if has_key(old_entries, q) {
                            let j = choose|j: int| 0 <= j < old_entries.len() && (#[trigger] old_entries[j]).0@ == q;
                            if j != i {
                                assert(old_entries[j] == s[j]);
                            } else {
                                assert(s[i as int].0@ == q);
                            }
                        }
                    }
                    assert forall|q: Seq<char>| #[trigger] map_of(s).contains_key(q) implies map_of(s)[q] == map_of(old_entries).insert(k, value)[q] by {
                        assert(has_key(s, q));
                        let j = choose|j: int| 0 <= j < s.len() && (#[trigger] s[j]).0@ == q;
                        assert(map_of(s)[s[j].0@] == s[j].1);
                        if j != i {
                            assert(old_entries[j] == s[j]);
                            assert(map_of(old_entries)[old_entries[j].0@] == old_entries[j].1);
                            if j < i {
                                assert(old_entries[j].0@ != old_entries[i as int].0@);
                            } else {
                                assert(old_entries[i as int].0@ != old_entries[j].0@);
                            }
                        }
                    }
                    assert(map_of(s) =~= map_of(old_entries).insert(k, value));
                    assert(s.map_values(|p: (String, V)| p.0@) =~= old_entries.map_values(|p: (String, V)| p.0@));
                }
                self.entries = entries;
            },
            None => {
                let ghost old_entries = self.entries@;
                let ghost k = key@;
                let mut entries: Vec<(String, V)> = Vec::new();
                std::mem::swap(&mut entries, &mut self.entries);
                entries.push((key, value));
                proof {
                    let s = entries@;
                    assert(s.drop_last() =~= old_entries);
                    assert(distinct_keys(s)) by {
                        assert forall|a: int, b: int| 0 <= a < b < s.len() implies (#[trigger] s[a]).0@ != (#[trigger] s[b]).0@ by {
                            assert(s[a] == old_entries[a]);
                            if b < s.len() - 1 {
                                assert(s[b] == old_entries[b]);
                            }
                        }
                    }
                    assert(s.map_values(|p: (String, V)| p.0@) =~= old_entries.map_values(|p: (String, V)| p.0@).push(k));
                }
                self.entries = entries;
            },
        }
    }

    /// Removes `key` and returns its value; the other keys keep their order.
    pub fn remove(&mut self, key: &str) -> (r: Option<V>)
        ensures
            final(self).view() == old(self).view().remove(key@),
            match r {
                Some(v) => old(self).view().contains_key(key@) && old(self).view()[key@] == v,
                None => !old(self).view().contains_key(key@) && final(self).key_seq() == old(self).key_seq(),
            },
    {
        proof {
            use_type_invariant(&*self);
            lemma_map_of(self.entries@);
        }
        match self.position(key) {
            Some(i) => {
                let ghost old_entries = self.entries@;
                proof {
                    assert(has_key(old_entries, key@) && old_entries[i as int].0@ == key@);
                    assert(map_of(old_entries)[old_entries[i as int].0@] == old_entries[i as int].1);
                }
                let mut entries: Vec<(String, V)> = Vec::new();
                std::mem::swap(&mut entries, &mut self.entries);
                let (_, v) = entries.remove(i);
                proof {
                    let s = entries@;
                    assert(s =~= old_entries.subrange(0, i as int) + old_entries.subrange(i + 1, old_entries.len() as int));
                    assert forall|j: int| 0 <= j < s.len() implies #[trigger] s[j] == (if j < i { old_entries[j] } else { old_entries[j + 1] }) by {}
                    assert(distinct_keys(s)) by {
                        assert forall|a: int, b: int| 0 <= a < b < s.len() implies (#[trigger] s[a]).0@ != (#[trigger] s[b]).0@ by {
                            let a2 = if a < i { a } else { a + 1 };
                            let b2 = if b < i { b } else { b + 1 };
                            assert(s[a] == old_entries[a2] && s[b] == old_entries[b2]);
                        }
                    }
                    lemma_map_of(s);
                    assert forall|q: Seq<char>| map_of(s).contains_key(q) <==> map_of(old_entries).remove(key@).contains_key(q) by {
                        if has_key(s, q) {
                            let j = choose|j: int| 0 <= j < s.len() && (#[trigger] s[j]).0@ == q;
                            let j2 = if j < i { j } else { j + 1 };
                            assert(s[j] == old_entries[j2]);
                            assert(j2 != i);
                        }
                        if has_key(old_entries, q) && q != key@ {
                            let j = choose|j: int| 0 <= j < old_entries.len() && (#[trigger] old_entries[j]).0@ == q;
                            assert(j != i);
                            let j2 = if j < i { j } else { j - 1 };
                            assert(s[j2] == old_entries[j]);
                        }
                    }
                    assert forall|q: Seq<char>| #[trigger] map_of(s).contains_key(q) implies map_of(s)[q] == map_of(old_entries).remove(key@)[q] by {
                        assert(has_key(s, q));
                        let j = choose|j: int| 0 <= j < s.len() && (#[trigger] s[j]).0@ == q;
                        let j2 = if j < i { j } else { j + 1 };
                        assert(s[j] == old_entries[j2]);
                        assert(map_of(s)[s[j].0@] == s[j].1);
                        assert(map_of(old_entries)[old_entries[j2].0@] == old_entries[j2].1);
                        if j2 < i {
                            assert(old_entries[j2].0@ != old_entries[i as int].0@);
                        } else {
                            assert(old_entries[i as int].0@ != old_entries[j2].0@);
                        }
                    }
                    assert(map_of(s) =~= map_of(old_entries).remove(key@));
                }
                self.entries = entries;
                Some(v)
            },
            None => {
                proof {
                    assert(map_of(self.entries@).remove(key@) =~= map_of(self.entries@));
                }
                None
            },
        }
    }

    /// The keys in insertion order.
    pub fn keys(&self) -> (r: Vec<&str>)
        ensures
            r@.map_values(|k: &str| k@) == self.key_seq(),
    {
        let mut r: Vec<&str> = Vec::new();
        let mut i: usize = 0;
        while i < self.entries.len()
            invariant
                i <= self.entries@.len(),
                r@.map_values(|k: &str| k@) == self.key_seq().take(i as int),
            decreases self.entries@.len() - i,
        {
            let ghost before = r@;
            let k: &str = self.entries[i].0.as_str();
            r.push(k);
            proof {
                assert(r@ == before.push(k));
                assert(r@.map_values(|k: &str| k@) =~= before.map_values(|k: &str| k@).push(k@));
                assert(self.key_seq()[i as int] == self.entries@[i as int].0@);
                assert(self.key_seq().take(i + 1) =~= self.key_seq().take(i as int).push(self.key_seq()[i as int]));
            }
            i = i + 1;
        }
        assert(self.key_seq().take(i as int) =~= self.key_seq());
        r
    }

    proof fn lemma_dom_len(&self)
        requires
            distinct_keys(self.entries@),
        ensures
            self.view().dom().finite(),
            self.view().dom().len() == self.entries@.len(),
    {
        lemma_map_of_dom(self.entries@);
    }
}

/// Every key of the list is a key of its map.
pub proof fn lemma_map_of_has_keys<V>(s: Seq<(String, V)>)
    ensures
        forall|i: int| 0 <= i < s.len() ==> map_of(s).contains_key((#[trigger] s[i]).0@),
    decreases s.len(),
{
    if s.len() > 0 {
        let p = s.drop_last();
        lemma_map_of_has_keys(p);
        assert forall|i: int| 0 <= i < s.len() implies map_of(s).contains_key((#[trigger] s[i]).0@) by {
            if i < s.len() - 1 {
                assert(s[i] == p[i]);
            }
        }
    }
}

pub proof fn lemma_map_of_dom<V>(s: Seq<(String, V)>)
    requires
        distinct_keys(s),
    ensures
        map_of(s).dom().finite(),
        map_of(s).dom().len() == s.len(),
    decreases s.len(),
{
    if s.len() > 0 {
        let p = s.drop_last();
        assert(distinct_keys(p)) by {
            assert forall|i: int, j: int| 0 <= i < j < p.len() implies (#[trigger] p[i]).0@ != (#[trigger] p[j]).0@ by {
                assert(p[i] == s[i] && p[j] == s[j]);
            }
        }
        lemma_map_of_dom(p);
        lemma_map_of(p);
        assert(!map_of(p).contains_key(s.last().0@)) by {
            if has_key(p, s.last().0@) {
                let i = choose|i: int| 0 <= i < p.len() && (#[trigger] p[i]).0@ == s.last().0@;
                assert(p[i] == s[i]);
            }
        }
    } else {
        assert(map_of(s).dom() =~= Set::<Seq<char>>::empty());
    }
}

} // verus!
