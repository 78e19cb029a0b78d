use vstd::prelude::*;
use crate::text::str_eq;

verus! {

/// Items grouped by a string key, each group in arrival order.
pub struct ChatLog<T> {
    groups: Vec<(String, Vec<T>)>,
}

pub open spec fn unique_keys<T>(s: Seq<(String, Vec<T>)>) -> bool {
    forall|i: int, j: int| 0 <= i < j < s.len() ==> s[i].0@ != s[j].0@
}

pub open spec fn groups_map<T>(s: Seq<(String, Vec<T>)>) -> Map<Seq<char>, Seq<T>>
    decreases s.len(),
{
    if s.len() == 0 {
        Map::empty()
    } else {
        groups_map(s.drop_last()).insert(s.last().0@, s.last().1@)
    }
}

proof fn lemma_groups_dom<T>(s: Seq<(String, Vec<T>)>, k: Seq<char>)
    ensures
        groups_map(s).contains_key(k) <==> exists|i: int| 0 <= i < s.len() && s[i].0@ == k,
    decreases s.len(),
{
    if s.len() > 0 {
        lemma_groups_dom(s.drop_last(), k);
        if groups_map(s.drop_last()).contains_key(k) {
            let i = choose|i: int| 0 <= i < s.drop_last().len() && s.drop_last()[i].0@ == k;
            assert(s[i].0@ == k);
        }
        if exists|i: int| 0 <= i < s.len() && s[i].0@ == k {
            let i = choose|i: int| 0 <= i < s.len() && s[i].0@ == k;
            if i < s.len() - 1 {
                assert(s.drop_last()[i].0@ == k);
            }
        }
    }
}

proof fn lemma_groups_value<T>(s: Seq<(String, Vec<T>)>, i: int)
    requires
        unique_keys(s),
        0 <= i < s.len(),
    ensures
        groups_map(s).contains_key(s[i].0@),
        groups_map(s)[s[i].0@] == s[i].1@,
    decreases s.len(),
{
    if i < s.len() - 1 {
        assert(s.drop_last()[i] == s[i]);
        lemma_groups_value(s.drop_last(), i);
    }
}

proof fn lemma_groups_update<T>(s: Seq<(String, Vec<T>)>, i: int, g: (String, Vec<T>))
    requires
        unique_keys(s),
        0 <= i < s.len(),
        g.0@ == s[i].0@,
    ensures
        unique_keys(s.update(i, g)),
        groups_map(s.update(i, g)) == groups_map(s).insert(g.0@, g.1@),
    decreases s.len(),
{
    let t = s.update(i, g);
    if i == s.len() - 1 {
        assert(t.drop_last() =~= s.drop_last());
        lemma_groups_dom(s.drop_last(), g.0@);
        assert(groups_map(t) =~= groups_map(s).insert(g.0@, g.1@));
    } else {
        assert(t.drop_last() =~= s.drop_last().update(i, g));
        lemma_groups_update(s.drop_last(), i, g);
        assert(s.last().0@ != g.0@);
        assert(groups_map(t) =~= groups_map(s).insert(g.0@, g.1@));
    }
}

proof fn lemma_groups_keys_len<T>(s: Seq<(String, Vec<T>)>)
    requires
        unique_keys(s),
    ensures
        groups_map(s).dom().finite(),
        groups_map(s).dom().len() == s.len(),
    decreases s.len(),
{
    if s.len() > 0 {
        lemma_groups_keys_len(s.drop_last());
        lemma_groups_dom(s.drop_last(), s.last().0@);
        if groups_map(s.drop_last()).contains_key(s.last().0@) {
            let i = choose|i: int|
                0 <= i < s.drop_last().len() && s.drop_last()[i].0@ == s.last().0@;
            assert(s[i].0@ == s[s.len() - 1].0@);
        }
    }
}

impl<T> View for ChatLog<T> {
    type V = Map<Seq<char>, Seq<T>>;

    closed spec fn view(&self) -> Self::V {
        groups_map(self.groups@)
    }
}

/// The log after `item` arrives under `key`.
pub open spec fn append_spec<T>(m: Map<Seq<char>, Seq<T>>, key: Seq<char>, item: T) -> Map<
    Seq<char>,
    Seq<T>,
> {
    if m.contains_key(key) {
        m.insert(key, m[key].push(item))
    } else {
        m.insert(key, seq![item])
    }
}

/// The items under `key`, none when the key never received any.
pub open spec fn group_of<T>(m: Map<Seq<char>, Seq<T>>, key: Seq<char>) -> Seq<T> {
    if m.contains_key(key) {
        m[key]
    } else {
        Seq::empty()
    }
}

impl<T> ChatLog<T> {
    pub closed spec fn wf(&self) -> bool {
        unique_keys(self.groups@)
    }

    /// The groups, in the order their keys first arrived.
    pub closed spec fn seq(&self) -> Seq<(String, Vec<T>)> {
        self.groups@
    }

    pub proof fn lemma_view(&self)
        ensures
            self@ == groups_map(self.seq()),
            self.wf() == unique_keys(self.seq()),
    {
    }

    /// The groups, in the order their keys first arrived.
    pub fn groups(&self) -> (g: &Vec<(String, Vec<T>)>)
        ensures
            g@ == self.seq(),
    {
        &self.groups
    }

    /// A log holding exactly `groups`.
    pub fn from_groups(groups: Vec<(String, Vec<T>)>) -> (s: Self)
        requires
            unique_keys(groups@),
        ensures
            s.wf(),
            s.seq() == groups@,
    {
        ChatLog { groups }
    }

    /// An empty log.
    pub fn new() -> (s: Self)
        ensures
            s.wf(),
            s@ == Map::<Seq<char>, Seq<T>>::empty(),
    {
        ChatLog { groups: Vec::new() }
    }

    fn find(&self, key: &str) -> (r: Option<usize>)
        requires
            self.wf(),
        ensures
            r matches Some(i) ==> i < self.groups@.len() && self.groups@[i as int].0@ == key@,
            r is None ==> !self@.contains_key(key@),
    {
        let mut i: usize = 0;
        while i < self.groups.len()
            invariant
                i <= self.groups@.len(),
                forall|j: int| 0 <= j < i ==> self.groups@[j].0@ != key@,
            decreases self.groups@.len() - i,
        {
            if str_eq(self.groups[i].0.as_str(), key) {
                return Some(i);
            }
            i = i + 1;
        }
        proof {
            lemma_groups_dom(self.groups@, key@);
        }
        None
    }

    /// The items under `key`, in arrival order.
    pub fn get(&self, key: &str) -> (r: Option<&Vec<T>>)
        requires
            self.wf(),
        ensures
            r is Some <==> self@.contains_key(key@),
            r matches Some(v) ==> v@ == self@[key@],
    {
        match self.find(key) {
            Some(i) => {
                proof {
                    lemma_groups_value(self.groups@, i as int);
                }
                Some(&self.groups[i].1)
            },
            None => None,
        }
    }

    /// Adds `item` at the end of the group under `key`.
    pub fn append(&mut self, key: &str, item: T)
        requires
            old(self).wf(),
        ensures
            final(self).wf(),
            final(self)@ == append_spec(old(self)@, key@, item),
    {
        match self.find(key) {
            Some(i) => {
                proof {
                    lemma_groups_value(self.groups@, i as int);
                }
                let ghost before = self.groups@;
                let (k, mut items) = self.groups.remove(i);
                items.push(item);
                self.groups.insert(i, (k, items));
                proof {
                    assert(self.groups@ =~= before.update(i as int, self.groups@[i as int]));
                    lemma_groups_update(before, i as int, self.groups@[i as int]);
                }
            },
            None => {
                let ghost before = self.groups@;
                let mut items: Vec<T> = Vec::new();
                items.push(item);
                self.groups.push((String::from_str(key), items));
                proof {
                    lemma_groups_dom(before, key@);
                    assert(self.groups@.drop_last() =~= before);
                    assert forall|i: int, j: int| 0 <= i < j < self.groups@.len() implies
                        self.groups@[i].0@ != self.groups@[j].0@ by {
                        if j == self.groups@.len() - 1 {
                            assert(before[i].0@ != key@);
                        }
                    }
                    assert(items@ =~= seq![item]);
                }
            },
        }
    }

    /// The keys that have received items, each once.
    pub fn keys(&self) -> (ks: Vec<String>)
        requires
            self.wf(),
        ensures
            ks@.len() == self@.dom().len(),
            forall|i: int, j: int| 0 <= i < j < ks@.len() ==> ks@[i]@ != ks@[j]@,
            forall|i: int| 0 <= i < ks@.len() ==> self@.contains_key(#[trigger] ks@[i]@),
    {
        let mut ks: Vec<String> = Vec::new();
        let mut i: usize = 0;
        proof {
            lemma_groups_keys_len(self.groups@);
        }
        while i < self.groups.len()
            invariant
                self.wf(),
                i <= self.groups@.len(),
                ks@.len() == i,
                forall|j: int| 0 <= j < i ==> ks@[j]@ == self.groups@[j].0@,
            decreases self.groups@.len() - i,
        {
            ks.push(self.groups[i].0.clone());
            i = i + 1;
        }
        proof {
            assert forall|j: int| 0 <= j < ks@.len() implies self@.contains_key(
                #[trigger] ks@[j]@,
            ) by {
                lemma_groups_value(self.groups@, j);
            }
        }
        ks
    }

    /// Sets the whole group under `key` to `items`, replacing any earlier
    /// group under it (which keeps its place).
    pub fn put_group(&mut self, key: String, items: Vec<T>)
        requires
            old(self).wf(),
        ensures
            final(self).wf(),
            final(self)@ == old(self)@.insert(key@, items@),
    {
        match self.find(key.as_str()) {
            Some(i) => {
                proof {
                    lemma_groups_update(self.groups@, i as int, (key, items));
                }
                self.groups.set(i, (key, items));
            },
            None => {
                let ghost before = self.groups@;
                let ghost k = key@;
                self.groups.push((key, items));
                proof {
                    lemma_groups_dom(before, k);
                    assert(self.groups@.drop_last() =~= before);
                    assert forall|i: int, j: int| 0 <= i < j < self.groups@.len() implies
                        self.groups@[i].0@ != self.groups@[j].0@ by {
                        if j == self.groups@.len() - 1 {
                            assert(before[i].0@ != k);
                        }
                    }
                }
            },
        }
    }

    /// The group at position `i` is the one under its key.
    pub(crate) proof fn lemma_group_at(&self, i: int)
        requires
            self.wf(),
            0 <= i < self.seq().len(),
        ensures
            self@.contains_key(self.seq()[i].0@),
            self@[self.seq()[i].0@] == self.seq()[i].1@,
    {
        lemma_groups_value(self.groups@, i);
    }

    /// There are as many keys as groups.
    pub(crate) proof fn lemma_key_count(&self)
        requires
            self.wf(),
        ensures
            self@.dom().finite(),
            self@.dom().len() == self.seq().len(),
    {
        lemma_groups_keys_len(self.groups@);
    }

    /// Forgets every item.
    pub fn clear(&mut self)
        ensures
            final(self).wf(),
            final(self)@ == Map::<Seq<char>, Seq<T>>::empty(),
    {
        self.groups = Vec::new();
    }
}

/// Appending under one key leaves every other key's group as it was.
pub proof fn lemma_append_other_keys<T>(m: Map<Seq<char>, Seq<T>>, key: Seq<char>, item: T, other: Seq<char>)
    requires
        other != key,
    ensures
        group_of(append_spec(m, key, item), other) == group_of(m, other),
{
}

/// After appending, the key's group is the old group followed by the item.
pub proof fn lemma_append_then_group<T>(m: Map<Seq<char>, Seq<T>>, key: Seq<char>, item: T)
    ensures
        group_of(append_spec(m, key, item), key) == group_of(m, key).push(item),
{
    if !m.contains_key(key) {
        assert(seq![item] =~= Seq::<T>::empty().push(item));
    }
}

} // verus!
