use vstd::prelude::*;
use crate::text::str_eq;

verus! {

/// A map keyed by strings, in insertion order.
pub struct StrMap<V> {
    entries: Vec<(String, V)>,
}

pub open spec fn distinct_keys<V>(s: Seq<(String, V)>) -> bool {
    forall|i: int, j: int| 0 <= i < j < s.len() ==> s[i].0@ != s[j].0@
}

pub open spec fn pairs_map<V>(s: Seq<(String, V)>) -> Map<Seq<char>, V>
    decreases s.len(),
{
    if s.len() == 0 {
        Map::empty()
    } else {
        pairs_map(s.drop_last()).insert(s.last().0@, s.last().1)
    }
}

proof fn lemma_pairs_dom<V>(s: Seq<(String, V)>, k: Seq<char>)
    ensures
        pairs_map(s).contains_key(k) <==> exists|i: int| 0 <= i < s.len() && s[i].0@ == k,
    decreases s.len(),
{
    if s.len() > 0 {
        lemma_pairs_dom(s.drop_last(), k);
        if pairs_map(s.drop_last()).contains_key(k) {
            let i = choose|i: int| 0 <= i < s.drop_last().len() && s.drop_last()[i].0@ == k;
            assert(s[i].0@ == k);
        }
        if exists|i: int| 0 <= i < s.len() && s[i].0@ == k {
            let i = choose|i: int| 0 <= i < s.len() && s[i].0@ == k;
            if i < s.len() - 1 {
                assert(s.drop_last()[i].0@ == k);
            }
        }
    }
}

proof fn lemma_pairs_value<V>(s: Seq<(String, V)>, i: int)
    requires
        distinct_keys(s),
        0 <= i < s.len(),
    ensures
        pairs_map(s).contains_key(s[i].0@),
        pairs_map(s)[s[i].0@] == s[i].1,
    decreases s.len(),
{
    if i < s.len() - 1 {
        assert(s.drop_last()[i] == s[i]);
        lemma_pairs_value(s.drop_last(), i);
    }
}

proof fn lemma_pairs_len<V>(s: Seq<(String, V)>)
    requires
        distinct_keys(s),
    ensures
        pairs_map(s).dom().finite(),
        pairs_map(s).dom().len() == s.len(),
    decreases s.len(),
{
    if s.len() > 0 {
        lemma_pairs_len(s.drop_last());
        lemma_pairs_dom(s.drop_last(), s.last().0@);
        if pairs_map(s.drop_last()).contains_key(s.last().0@) {
            let i = choose|i: int|
                0 <= i < s.drop_last().len() && s.drop_last()[i].0@ == s.last().0@;
            assert(s[i].0@ == s[s.len() - 1].0@);
        }
    }
}

proof fn lemma_pairs_remove<V>(s: Seq<(String, V)>, i: int)
    requires
        distinct_keys(s),
        0 <= i < s.len(),
    ensures
        distinct_keys(s.remove(i)),
        pairs_map(s.remove(i)) == pairs_map(s).remove(s[i].0@),
    decreases s.len(),
{
    let t = s.remove(i);
    if i == s.len() - 1 {
        assert(t =~= s.drop_last());
        lemma_pairs_dom(s.drop_last(), s[i].0@);
        assert(pairs_map(t) =~= pairs_map(s).remove(s[i].0@));
    } else {
        assert(t.drop_last() =~= s.drop_last().remove(i));
        assert(t.last() == s.last());
        lemma_pairs_remove(s.drop_last(), i);
        assert(s.last().0@ != s[i].0@);
        assert(pairs_map(t) =~= pairs_map(s).remove(s[i].0@));
    }
}

proof fn lemma_pairs_update<V>(s: Seq<(String, V)>, i: int, g: (String, V))
    requires
        distinct_keys(s),
        0 <= i < s.len(),
        g.0@ == s[i].0@,
    ensures
        distinct_keys(s.update(i, g)),
        pairs_map(s.update(i, g)) == pairs_map(s).insert(g.0@, g.1),
    decreases s.len(),
{
    let t = s.update(i, g);
    if i == s.len() - 1 {
        assert(t.drop_last() =~= s.drop_last());
        lemma_pairs_dom(s.drop_last(), g.0@);
        assert(pairs_map(t) =~= pairs_map(s).insert(g.0@, g.1));
    } else {
        assert(t.drop_last() =~= s.drop_last().update(i, g));
        lemma_pairs_update(s.drop_last(), i, g);
        assert(s.last().0@ != g.0@);
        assert(pairs_map(t) =~= pairs_map(s).insert(g.0@, g.1));
    }
}

impl<V> View for StrMap<V> {
    type V = Map<Seq<char>, V>;

    closed spec fn view(&self) -> Self::V {
        pairs_map(self.entries@)
    }
}

impl<V> StrMap<V> {
    pub closed spec fn wf(&self) -> bool {
        distinct_keys(self.entries@)
    }

    /// The entries in insertion order.
    pub closed spec fn seq(&self) -> Seq<(String, V)> {
        self.entries@
    }

    pub proof fn lemma_seq(&self)
        requires
            self.wf(),
        ensures
            distinct_keys(self.seq()),
            self@.dom().finite(),
            self@.dom().len() == self.seq().len(),
            forall|i: int| 0 <= i < self.seq().len() ==> self@.contains_key(#[trigger] self.seq()[i].0@)
                && self@[self.seq()[i].0@] == self.seq()[i].1,
            forall|k: Seq<char>| self@.contains_key(k) ==> exists|i: int|
                0 <= i < self.seq().len() && #[trigger] self.seq()[i].0@ == k,
    {
        lemma_pairs_len(self.entries@);
        assert forall|i: int| 0 <= i < self.seq().len() implies self@.contains_key(
            #[trigger] self.seq()[i].0@,
        ) && self@[self.seq()[i].0@] == self.seq()[i].1 by {
            lemma_pairs_value(self.entries@, i);
        }
        assert forall|k: Seq<char>| self@.contains_key(k) implies exists|i: int|
            0 <= i < self.seq().len() && #[trigger] self.seq()[i].0@ == k by {
            lemma_pairs_dom(self.entries@, k);
            let i = choose|i: int| 0 <= i < self.entries@.len() && self.entries@[i].0@ == k;
            assert(self.seq()[i].0@ == k);
        }
    }

    /// An empty map.
    pub fn new() -> (s: Self)
        ensures
            s.wf(),
            s@ == Map::<Seq<char>, V>::empty(),
            s.seq().len() == 0,
    {
        StrMap { entries: Vec::new() }
    }

    /// The entries in insertion order.
    pub fn entries(&self) -> (e: &Vec<(String, V)>)
        ensures
            e@ == self.seq(),
    {
        &self.entries
    }

    /// Number of entries.
    pub fn len(&self) -> (n: usize)
        requires
            self.wf(),
        ensures
            n == self@.dom().len(),
    {
        proof {
            lemma_pairs_len(self.entries@);
        }
        self.entries.len()
    }

    fn find(&self, key: &str) -> (r: Option<usize>)
        requires
            self.wf(),
        ensures
            r matches Some(i) ==> i < self.entries@.len() && self.entries@[i as int].0@ == key@,
            r is None ==> !self@.contains_key(key@),
    {
        let mut i: usize = 0;
        while i < self.entries.len()
            invariant
                i <= self.entries@.len(),
                forall|j: int| 0 <= j < i ==> self.entries@[j].0@ != key@,
            decreases self.entries@.len() - i,
        {
            if str_eq(self.entries[i].0.as_str(), key) {
                return Some(i);
            }
            i = i + 1;
        }
        proof {
            lemma_pairs_dom(self.entries@, key@);
        }
        None
    }

    /// Whether `key` is present.
    pub fn contains_key(&self, key: &str) -> (r: bool)
        requires
            self.wf(),
        ensures
            r == self@.contains_key(key@),
    {
        match self.find(key) {
            Some(i) => {
                proof {
                    lemma_pairs_value(self.entries@, i as int);
                }
                true
            },
            None => false,
        }
    }

    /// The value under `key`.
    pub fn get(&self, key: &str) -> (r: Option<&V>)
        requires
            self.wf(),
        ensures
            r is Some <==> self@.contains_key(key@),
            r matches Some(v) ==> *v == self@[key@],
    {
        match self.find(key) {
            Some(i) => {
                proof {
                    lemma_pairs_value(self.entries@, i as int);
                }
                Some(&self.entries[i].1)
            },
            None => None,
        }
    }

    /// Sets the value under `key`, replacing any earlier one, which it returns.
    pub fn insert(&mut self, key: String, value: V) -> (old_v: Option<V>)
        requires
            old(self).wf(),
        ensures
            final(self).wf(),
            final(self)@ == old(self)@.insert(key@, value),
            old(self)@.contains_key(key@) <==> old_v is Some,
            old_v matches Some(v) ==> v == old(self)@[key@],
    {
        match self.find(key.as_str()) {
            Some(i) => {
                proof {
                    lemma_pairs_value(self.entries@, i as int);
                }
                let ghost before = self.entries@;
                let (k, v) = self.entries.remove(i);
                self.entries.insert(i, (key, value));
                proof {
                    assert(self.entries@ =~= before.update(i as int, self.entries@[i as int]));
                    lemma_pairs_update(before, i as int, self.entries@[i as int]);
                }
                Some(v)
            },
            None => {
                let ghost before = self.entries@;
                let ghost k = key@;
                self.entries.push((key, value));
                proof {
                    lemma_pairs_dom(before, k);
                    assert(self.entries@.drop_last() =~= before);
                    assert forall|i: int, j: int| 0 <= i < j < self.entries@.len() implies
                        self.entries@[i].0@ != self.entries@[j].0@ by {
                        if j == self.entries@.len() - 1 {
                            assert(before[i].0@ != k);
                        }
                    }
                }
                None
            },
        }
    }

    /// Takes the value under `key` out.
    pub fn remove(&mut self, key: &str) -> (r: Option<V>)
        requires
            old(self).wf(),
        ensures
            final(self).wf(),
            final(self)@ == old(self)@.remove(key@),
            r is Some <==> old(self)@.contains_key(key@),
            r matches Some(v) ==> v == old(self)@[key@],
    {
        match self.find(key) {
            Some(i) => {
                proof {
                    lemma_pairs_value(self.entries@, i as int);
                    lemma_pairs_remove(self.entries@, i as int);
                }
                let (_, v) = self.entries.remove(i);
                Some(v)
            },
            None => {
                proof {
                    assert(self@.remove(key@) =~= self@);
                }
                None
            },
        }
    }

    /// The keys, each once, in insertion order.
    pub fn keys(&self) -> (ks: Vec<String>)
        requires
            self.wf(),
        ensures
            ks@.len() == self@.dom().len(),
            forall|i: int, j: int| 0 <= i < j < ks@.len() ==> ks@[i]@ != ks@[j]@,
            forall|i: int| 0 <= i < ks@.len() ==> self@.contains_key(#[trigger] ks@[i]@),
            forall|k: Seq<char>| self@.contains_key(k) ==> exists|i: int| 0 <= i < ks@.len() && #[trigger] ks@[i]@ == k,
    {
        proof {
            self.lemma_seq();
        }
        let mut ks: Vec<String> = Vec::new();
        let mut i: usize = 0;
        while i < self.entries.len()
            invariant
                i <= self.entries@.len(),
                ks@.len() == i,
                forall|j: int| 0 <= j < i ==> #[trigger] ks@[j]@ == self.entries@[j].0@,
            decreases self.entries@.len() - i,
        {
            ks.push(self.entries[i].0.clone());
            i = i + 1;
        }
        proof {
            assert forall|k: Seq<char>| self@.contains_key(k) implies exists|i: int|
                0 <= i < ks@.len() && #[trigger] ks@[i]@ == k by {
                let i = choose|i: int| 0 <= i < self.seq().len() && #[trigger] self.seq()[i].0@ == k;
                assert(ks@[i]@ == k);
            }
        }
        ks
    }
}

} // verus!
