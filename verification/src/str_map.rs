//! A map from strings to values, kept as a list of distinct keys in the order
//! they were first inserted.
use vstd::prelude::*;
use crate::text::{chars_eq, chars_of};

verus! {

/// The map that a list of key/value pairs describes: a later pair for a key
/// wins over an earlier one.
pub open spec fn pairs_to_map<V>(s: Seq<(Seq<char>, V)>) -> Map<Seq<char>, V>
    decreases s.len(),
{
    if s.len() == 0 {
        Map::empty()
    } else {
        pairs_to_map(s.drop_last()).insert(s.last().0, s.last().1)
    }
}

pub open spec fn keys_distinct<V>(s: Seq<(Seq<char>, V)>) -> bool {
    forall|i: int, j: int| 0 <= i < j < s.len() ==> #[trigger] s[i].0 != #[trigger] s[j].0
}

pub proof fn lemma_pairs_dom<V>(s: Seq<(Seq<char>, V)>, k: Seq<char>)
    ensures
        pairs_to_map(s).dom().contains(k) <==> exists|i: int| 0 <= i < s.len() && #[trigger] s[i].0 == k,
    decreases s.len(),
{
    if s.len() > 0 {
        lemma_pairs_dom(s.drop_last(), k);
        if exists|i: int| 0 <= i < s.len() && #[trigger] s[i].0 == k {
            let i = choose|i: int| 0 <= i < s.len() && #[trigger] s[i].0 == k;
            if i < s.len() - 1 {
                assert(s.drop_last()[i].0 == k);
            }
        }
        if exists|i: int| 0 <= i < s.len() - 1 && #[trigger] s.drop_last()[i].0 == k {
            let i = choose|i: int| 0 <= i < s.len() - 1 && #[trigger] s.drop_last()[i].0 == k;
            assert(s[i].0 == k);
        }
    }
}

pub proof fn lemma_pairs_value<V>(s: Seq<(Seq<char>, V)>, i: int)
    requires
        keys_distinct(s),
        0 <= i < s.len(),
    ensures
        pairs_to_map(s).dom().contains(s[i].0),
        pairs_to_map(s)[s[i].0] == s[i].1,
    decreases s.len(),
{
    lemma_pairs_dom(s, s[i].0);
    if i < s.len() - 1 {
        assert(s.drop_last()[i] == s[i]);
        assert(keys_distinct(s.drop_last()));
        lemma_pairs_value(s.drop_last(), i);
        assert(s[i].0 != s[s.len() - 1].0);
    }
}

pub proof fn lemma_pairs_len<V>(s: Seq<(Seq<char>, V)>)
    requires
        keys_distinct(s),
    ensures
        pairs_to_map(s).dom().finite(),
        pairs_to_map(s).len() == s.len(),
    decreases s.len(),
{
    if s.len() > 0 {
        assert(keys_distinct(s.drop_last()));
        lemma_pairs_len(s.drop_last());
        lemma_pairs_dom(s.drop_last(), s.last().0);
        if pairs_to_map(s.drop_last()).dom().contains(s.last().0) {
            let i = choose|i: int| 0 <= i < s.len() - 1 && #[trigger] s.drop_last()[i].0 == s.last().0;
            assert(s[i].0 == s[s.len() - 1].0);
        }
    }
}

/// Replacing the value at `i` replaces the value of that key.
pub proof fn lemma_pairs_update<V>(s: Seq<(Seq<char>, V)>, i: int, v: V)
    requires
        keys_distinct(s),
        0 <= i < s.len(),
    ensures
        pairs_to_map(s.update(i, (s[i].0, v))) == pairs_to_map(s).insert(s[i].0, v),
    decreases s.len(),
{
    let t = s.update(i, (s[i].0, v));
    if i == s.len() - 1 {
        assert(t.drop_last() == s.drop_last());
        lemma_pairs_dom(s.drop_last(), s[i].0);
        assert(pairs_to_map(t) =~= pairs_to_map(s).insert(s[i].0, v));
    } else {
        assert(keys_distinct(s.drop_last()));
        lemma_pairs_update(s.drop_last(), i, v);
        assert(t.drop_last() == s.drop_last().update(i, (s[i].0, v)));
        assert(s[i].0 != s.last().0);
        assert(pairs_to_map(t) =~= pairs_to_map(s).insert(s[i].0, v));
    }
}

/// Keys and values side by side.
pub open spec fn zip_pairs<V>(ks: Seq<Seq<char>>, vs: Seq<V>) -> Seq<(Seq<char>, V)> {
    Seq::new(ks.len(), |i: int| (ks[i], vs[i]))
}

proof fn lemma_zip_update<V>(ks: Seq<Seq<char>>, vs: Seq<V>, i: int, x: V)
    requires
        ks.len() == vs.len(),
        keys_distinct(zip_pairs(ks, vs)),
        0 <= i < ks.len(),
    ensures
        pairs_to_map(zip_pairs(ks, vs.update(i, x))) == pairs_to_map(zip_pairs(ks, vs)).insert(
            ks[i],
            x,
        ),
        keys_distinct(zip_pairs(ks, vs.update(i, x))),
{
    let p = zip_pairs(ks, vs);
    assert(zip_pairs(ks, vs.update(i, x)) =~= p.update(i, (p[i].0, x)));
    lemma_pairs_update(p, i, x);
}

/// A map from strings to values.
pub struct StrMap<V> {
    keys: Vec<String>,
    values: Vec<V>,
}

impl<V> StrMap<V> {
    /// The pairs in the order they are kept.
    pub closed spec fn pairs(&self) -> Seq<(Seq<char>, V)> {
        zip_pairs(self.key_seq(), self.values@)
    }

    #[verifier::type_invariant]
    closed spec fn wf(self) -> bool {
        &&& self.keys@.len() == self.values@.len()
        &&& forall|i: int, j: int|
            0 <= i < j < self.keys@.len() ==> #[trigger] self.keys@[i]@ != #[trigger] self.keys@[j]@
    }

    proof fn lemma_distinct(&self)
        requires
            self.wf(),
        ensures
            keys_distinct(self.pairs()),
            self.pairs().len() == self.key_seq().len(),
    {
        assert forall|i: int, j: int| 0 <= i < j < self.pairs().len() implies #[trigger] self.pairs()[i].0
            != #[trigger] self.pairs()[j].0 by {
            assert(self.pairs()[i].0 == self.keys@[i]@);
            assert(self.pairs()[j].0 == self.keys@[j]@);
        }
    }

    /// The keys in the order they are kept.
    pub closed spec fn key_seq(&self) -> Seq<Seq<char>> {
        Seq::new(self.keys@.len(), |i: int| self.keys@[i]@)
    }

    /// The number of keys, with the facts that tie the kept keys to the map.
    pub fn len(&self) -> (res: usize)
        ensures
            res == self@.len(),
            res == self.key_seq().len(),
            self@.dom().finite(),
            forall|i: int, j: int|
                0 <= i < j < self.key_seq().len() ==> #[trigger] self.key_seq()[i]
                    != #[trigger] self.key_seq()[j],
            forall|k: Seq<char>| #[trigger]
                self@.dom().contains(k) <==> self.key_seq().contains(k),
    {
        proof {
            use_type_invariant(self);
            self.lemma_distinct();
            lemma_pairs_len(self.pairs());
            assert forall|i: int, j: int|
                0 <= i < j < self.key_seq().len() implies #[trigger] self.key_seq()[i]
                    != #[trigger] self.key_seq()[j] by {
                assert(self.pairs()[i].0 == self.key_seq()[i]);
                assert(self.pairs()[j].0 == self.key_seq()[j]);
            }
            assert forall|k: Seq<char>| #[trigger]
                self@.dom().contains(k) <==> self.key_seq().contains(k) by {
                lemma_pairs_dom(self.pairs(), k);
                if self.key_seq().contains(k) {
                    let i = choose|i: int| 0 <= i < self.key_seq().len() && self.key_seq()[i] == k;
                    assert(self.pairs()[i].0 == k);
                }
                if self@.dom().contains(k) {
                    let i = choose|i: int|
                        0 <= i < self.pairs().len() && #[trigger] self.pairs()[i].0 == k;
                    assert(self.key_seq()[i] == k);
                }
            }
        }
        self.keys.len()
    }

    pub fn new() -> (res: Self)
        ensures
            res@ == Map::<Seq<char>, V>::empty(),
            res.key_seq() == Seq::<Seq<char>>::empty(),
    {
        let res = StrMap { keys: Vec::new(), values: Vec::new() };
        assert(res.pairs() =~= Seq::<(Seq<char>, V)>::empty());
        assert(res.key_seq() =~= Seq::<Seq<char>>::empty());
        res
    }

    /// Removes every key.
    pub fn clear(&mut self)
        ensures
            final(self)@ == Map::<Seq<char>, V>::empty(),
            final(self).key_seq() == Seq::<Seq<char>>::empty(),
    {
        *self = StrMap { keys: Vec::new(), values: Vec::new() };
        assert(self.pairs() =~= Seq::<(Seq<char>, V)>::empty());
        assert(self.key_seq() =~= Seq::<Seq<char>>::empty());
    }

    /// The index at which `key` is kept.
    fn index_of(&self, key: &str) -> (res: Option<usize>)
        ensures
            res matches Some(i) ==> i < self.key_seq().len() && self.key_seq()[i as int] == key@,
            res is None ==> !self@.dom().contains(key@),
    {
        let _ = self.len();
        let k = chars_of(key);
        for i in 0..self.keys.len()
            invariant
                k@ == key@,
                self.key_seq().len() == self.keys@.len(),
                forall|j: int| 0 <= j < i ==> self.key_seq()[j] != key@,
        {
            let c = chars_of(self.keys[i].as_str());
            if chars_eq(&c, &k) {
                return Some(i);
            }
        }
        proof {
            if self@.dom().contains(key@) {
                assert(self.key_seq().contains(key@));
            }
        }
        None
    }

    pub fn contains_key(&self, key: &str) -> (res: bool)
        ensures
            res == self@.dom().contains(key@),
    {
        match self.index_of(key) {
            Some(i) => {
                proof {
                    use_type_invariant(self);
            self.lemma_distinct();
                    lemma_pairs_value(self.pairs(), i as int);
                }
                true
            },
            None => false,
        }
    }

    pub fn get(&self, key: &str) -> (res: Option<&V>)
        ensures
            res is Some == self@.dom().contains(key@),
            res matches Some(v) ==> *v == self@[key@],
    {
        match self.index_of(key) {
            Some(i) => {
                proof {
                    use_type_invariant(self);
            self.lemma_distinct();
                    lemma_pairs_value(self.pairs(), i as int);
                }
                Some(&self.values[i])
            },
            None => None,
        }
    }

    /// The value of `key`, to change in place.
    pub fn get_mut(&mut self, key: &str) -> (res: Option<&mut V>)
        ensures
            res is Some == old(self)@.dom().contains(key@),
            res matches Some(v) ==> *v == old(self)@[key@] && final(self)@ == old(self)@.insert(
                key@,
                *final(v),
            ),
            res is None ==> final(self)@ == old(self)@,
    {
        match self.index_of(key) {
            Some(i) => {
                proof {
                    use_type_invariant(&*self);
            self.lemma_distinct();
                    lemma_pairs_value(self.pairs(), i as int);
                }
                let ghost ks = self.key_seq();
                let ghost vs = self.values@;
                proof {
                    assert forall|x: V| #[trigger]
                        pairs_to_map(zip_pairs(ks, vs.update(i as int, x))) == pairs_to_map(
                            zip_pairs(ks, vs),
                        ).insert(ks[i as int], x) by {
                        lemma_zip_update(ks, vs, i as int, x);
                    }
                }
                let v = &mut self.values[i];
                Some(v)
            },
            None => None,
        }
    }

    /// Sets the value of `key`; a new key goes after the kept ones.
    pub fn insert(&mut self, key: String, value: V)
        ensures
            final(self)@ == old(self)@.insert(key@, value),
            old(self)@.dom().contains(key@) ==> final(self).key_seq() == old(self).key_seq(),
            !old(self)@.dom().contains(key@) ==> final(self).key_seq() == old(self).key_seq().push(
                key@,
            ),
    {
        proof {
            use_type_invariant(&*self);
            self.lemma_distinct();
        }
        let ghost old_pairs = self.pairs();
        match self.index_of(key.as_str()) {
            Some(i) => {
                proof {
                    assert(old_pairs[i as int].0 == key@);
                    lemma_pairs_dom(old_pairs, key@);
                    assert(old(self)@.dom().contains(key@));
                    lemma_pairs_update(old_pairs, i as int, value);
                }
                let mut taken: StrMap<V> = StrMap::new();
                std::mem::swap(&mut taken, self);
                proof {
                    use_type_invariant(&taken);
                }
                let StrMap { keys, mut values } = taken;
                values.set(i, value);
                let ghost ks = Seq::new(keys@.len(), |j: int| keys@[j]@);
                assert(zip_pairs(ks, values@) =~= old_pairs.update(i as int, (old_pairs[i as int].0, value)));
                *self = StrMap { keys, values };
                assert(self.key_seq() =~= ks);
                assert(self.key_seq() =~= old(self).key_seq());
            },
            None => {
                proof {
                    lemma_pairs_dom(old_pairs, key@);
                    assert forall|j: int| 0 <= j < old_pairs.len() implies old_pairs[j].0 != key@ by {
                        if old_pairs[j].0 == key@ {
                            assert(old(self)@.dom().contains(key@));
                        }
                    }
                }
                let mut taken: StrMap<V> = StrMap::new();
                std::mem::swap(&mut taken, self);
                proof {
                    use_type_invariant(&taken);
                }
                let StrMap { mut keys, mut values } = taken;
                let ghost kv = key@;
                let ghost old_keys = keys@;
                assert(forall|j: int| 0 <= j < old_keys.len() ==> old_keys[j]@ == old_pairs[j].0);
                keys.push(key);
                values.push(value);
                assert forall|a: int, b: int| 0 <= a < b < keys@.len() implies #[trigger] keys@[a]@
                    != #[trigger] keys@[b]@ by {
                    if b == keys@.len() - 1 {
                        assert(old_keys[a]@ == old_pairs[a].0);
                    } else {
                        assert(old_keys[a] == keys@[a] && old_keys[b] == keys@[b]);
                    }
                }
                let ghost new_pairs = Seq::new(keys@.len(), |j: int| (keys@[j]@, values@[j]));
                assert(new_pairs =~= old_pairs.push((kv, value)));
                assert(new_pairs.drop_last() == old_pairs);
                *self = StrMap { keys, values };
                assert(self.pairs() =~= new_pairs);
                assert(self.key_seq() =~= old(self).key_seq().push(kv));
            },
        }
    }

    /// The key and value kept at `i`.
    pub fn entry_at(&self, i: usize) -> (res: (&String, &V))
        requires
            i < self.key_seq().len(),
        ensures
            res.0@ == self.key_seq()[i as int],
            self@.dom().contains(res.0@),
            *res.1 == self@[res.0@],
    {
        proof {
            use_type_invariant(self);
            self.lemma_distinct();
            lemma_pairs_value(self.pairs(), i as int);
        }
        (&self.keys[i], &self.values[i])
    }
}

impl<V> View for StrMap<V> {
    type V = Map<Seq<char>, V>;

    closed spec fn view(&self) -> Map<Seq<char>, V> {
        pairs_to_map(self.pairs())
    }
}

} // verus!
