use vstd::prelude::*;
use crate::text::text_eq;

verus! {

/// A map from names to values that remembers the order in which names were
/// first inserted.  Names are compared by their characters.
#[derive(Debug)]
pub struct NameMap<V> {
    entries: Vec<(String, V)>,
}

/// The entries of a name map as (name, value) pairs, names taken by their view.
pub open spec fn pair_names<V>(pairs: Seq<(Seq<char>, V)>) -> Seq<Seq<char>> {
    pairs.map_values(|p: (Seq<char>, V)| p.0)
}

/// No name occurs twice among the pairs.
pub open spec fn names_distinct<V>(pairs: Seq<(Seq<char>, V)>) -> bool {
    forall|i: int, j: int| 0 <= i < j < pairs.len() ==> pairs[i].0 != pairs[j].0
}

/// The position of `name` among the pairs, if it occurs.
pub open spec fn index_of_name<V>(pairs: Seq<(Seq<char>, V)>, name: Seq<char>) -> Option<int> {
    if exists|i: int| 0 <= i < pairs.len() && pairs[i].0 == name {
        Some(choose|i: int| 0 <= i < pairs.len() && pairs[i].0 == name)
    } else {
        None
    }
}

/// The map that a sequence of pairs with distinct names denotes.
pub open spec fn pairs_to_map<V>(pairs: Seq<(Seq<char>, V)>) -> Map<Seq<char>, V> {
    Map::new(
        |k: Seq<char>| exists|i: int| 0 <= i < pairs.len() && pairs[i].0 == k,
        |k: Seq<char>| pairs[index_of_name(pairs, k)->0].1,
    )
}

/// Looking a name up in pairs with distinct names gives the value stored at its position.
pub proof fn lemma_pairs_lookup<V>(pairs: Seq<(Seq<char>, V)>, i: int)
    requires
        names_distinct(pairs),
        0 <= i < pairs.len(),
    ensures
        index_of_name(pairs, pairs[i].0) == Some(i),
        pairs_to_map(pairs).contains_key(pairs[i].0),
        pairs_to_map(pairs)[pairs[i].0] == pairs[i].1,
{
    let k = pairs[i].0;
    assert(exists|j: int| 0 <= j < pairs.len() && pairs[j].0 == k);
    let j = choose|j: int| 0 <= j < pairs.len() && pairs[j].0 == k;
    if j != i {
        if j < i {
            assert(pairs[j].0 != pairs[i].0);
        } else {
            assert(pairs[i].0 != pairs[j].0);
        }
    }
}

/// A name that occurs at no position is not in the map.
pub proof fn lemma_pairs_absent<V>(pairs: Seq<(Seq<char>, V)>, k: Seq<char>)
    requires
        forall|i: int| 0 <= i < pairs.len() ==> pairs[i].0 != k,
    ensures
        index_of_name(pairs, k) is None,
        !pairs_to_map(pairs).contains_key(k),
{
}

/// The map of pairs with distinct names has as many names as there are pairs.
pub proof fn lemma_map_len<V>(pairs: Seq<(Seq<char>, V)>)
    requires
        names_distinct(pairs),
    ensures
        pairs_to_map(pairs).dom().finite(),
        pairs_to_map(pairs).dom().len() == pairs.len(),
    decreases pairs.len(),
{
    if pairs.len() == 0 {
        assert(pairs_to_map(pairs).dom() =~= Set::<Seq<char>>::empty());
    } else {
        let p = pairs.drop_last();
        let last = pairs.last().0;
        assert(names_distinct(p));
        lemma_map_len(p);
        assert forall|k: Seq<char>| pairs_to_map(pairs).dom().contains(k) == pairs_to_map(p).dom().insert(
            last,
        ).contains(k) by {
            if exists|i: int| 0 <= i < pairs.len() && pairs[i].0 == k {
                let i = choose|i: int| 0 <= i < pairs.len() && pairs[i].0 == k;
                if i < p.len() {
                    assert(p[i].0 == k);
                }
            }
            if exists|i: int| 0 <= i < p.len() && p[i].0 == k {
                let i = choose|i: int| 0 <= i < p.len() && p[i].0 == k;
                assert(pairs[i].0 == k);
            }
            if k == last {
                assert(pairs[pairs.len() - 1].0 == k);
            }
        }
        assert(pairs_to_map(pairs).dom() =~= pairs_to_map(p).dom().insert(last));
        assert(!pairs_to_map(p).dom().contains(last)) by {
            if exists|i: int| 0 <= i < p.len() && p[i].0 == last {
                let i = choose|i: int| 0 <= i < p.len() && p[i].0 == last;
                assert(pairs[i].0 != pairs[pairs.len() - 1].0);
            }
        }
    }
}

/// Changing the value at one position keeps the names distinct and changes the
/// map at that name only.
pub proof fn lemma_pairs_update<V>(pairs: Seq<(Seq<char>, V)>, i: int, v: V)
    requires
        names_distinct(pairs),
        0 <= i < pairs.len(),
    ensures
        names_distinct(pairs.update(i, (pairs[i].0, v))),
        pairs_to_map(pairs.update(i, (pairs[i].0, v))) == pairs_to_map(pairs).insert(pairs[i].0, v),
        pair_names(pairs.update(i, (pairs[i].0, v))) == pair_names(pairs),
{
    let before = pairs;
    let after = pairs.update(i, (pairs[i].0, v));
    let name = pairs[i].0;
    assert(pair_names(after) =~= pair_names(before));
    assert(names_distinct(after)) by {
        assert forall|a: int, b: int| 0 <= a < b < after.len() implies after[a].0 != after[b].0 by {
            assert(after[a].0 == before[a].0);
            assert(after[b].0 == before[b].0);
        }
    }
    assert forall|k: Seq<char>| #![auto] after.len() >= 0 implies
        pairs_to_map(after).contains_key(k) == (pairs_to_map(before).insert(name, v)).contains_key(k) by {
        if exists|j: int| 0 <= j < before.len() && before[j].0 == k {
            let j = choose|j: int| 0 <= j < before.len() && before[j].0 == k;
            assert(after[j].0 == k);
        }
        if exists|j: int| 0 <= j < after.len() && after[j].0 == k {
            let j = choose|j: int| 0 <= j < after.len() && after[j].0 == k;
            assert(before[j].0 == k);
        }
        if k == name {
            assert(after[i].0 == k);
        }
    }
    assert forall|k: Seq<char>| #[trigger] pairs_to_map(after).contains_key(k) implies
        pairs_to_map(after)[k] == (pairs_to_map(before).insert(name, v))[k] by {
        let j = choose|j: int| 0 <= j < after.len() && after[j].0 == k;
        lemma_pairs_lookup(after, j);
        lemma_pairs_lookup(before, j);
    }
    assert(pairs_to_map(after) =~= pairs_to_map(before).insert(name, v));
}

impl<V> NameMap<V> {
    /// The entries in insertion order, names taken by their view.
    pub closed spec fn pairs(self) -> Seq<(Seq<char>, V)> {
        self.entries@.map_values(|e: (String, V)| (e.0@, e.1))
    }

    /// The map's well-formedness: no name occurs twice.
    pub open spec fn wf(self) -> bool {
        names_distinct(self.pairs())
    }

    /// The names in insertion order.
    pub open spec fn names(self) -> Seq<Seq<char>> {
        pair_names(self.pairs())
    }

    pub open spec fn spec_len(self) -> nat {
        self.pairs().len()
    }

    /// An empty map.
    pub fn new() -> (m: Self)
        ensures
            m.wf(),
            m.pairs() == Seq::<(Seq<char>, V)>::empty(),
            m@ == Map::<Seq<char>, V>::empty(),
    {
        let m = NameMap { entries: Vec::new() };
        assert(m.pairs() =~= Seq::<(Seq<char>, V)>::empty());
        assert(m@ =~= Map::<Seq<char>, V>::empty());
        m
    }

    /// The number of entries.
    pub fn len(&self) -> (n: usize)
        ensures
            n == self.pairs().len(),
    {
        self.entries.len()
    }

    /// The position of `name`, if the map holds it.
    pub fn find(&self, name: &str) -> (r: Option<usize>)
        requires
            self.wf(),
        ensures
            r matches Some(i) ==> i < self.pairs().len() && self.pairs()[i as int].0 == name@,
            r is None <==> !self@.contains_key(name@),
            r matches Some(i) ==> index_of_name(self.pairs(), name@) == Some(i as int),
    {
        let mut i: usize = 0;
        while i < self.entries.len()
            invariant
                self.wf(),
                i <= self.entries.len(),
                forall|j: int| 0 <= j < i ==> self.pairs()[j].0 != name@,
            decreases self.entries.len() - i,
        {
            if text_eq(self.entries[i].0.as_str(), name) {
                proof {
                    lemma_pairs_lookup(self.pairs(), i as int);
                }
                return Some(i);
            }
            i = i + 1;
        }
        proof {
            lemma_pairs_absent(self.pairs(), name@);
        }
        None
    }

    /// The name stored at position `i`.
    pub fn name_at(&self, i: usize) -> (r: &String)
        requires
            i < self.pairs().len(),
        ensures
            r@ == self.pairs()[i as int].0,
    {
        &self.entries[i].0
    }

    /// The value stored at position `i`.
    pub fn value_at(&self, i: usize) -> (r: &V)
        requires
            i < self.pairs().len(),
        ensures
            *r == self.pairs()[i as int].1,
    {
        &self.entries[i].1
    }

    /// The value stored under `name`, if any.
    pub fn get(&self, name: &str) -> (r: Option<&V>)
        requires
            self.wf(),
        ensures
            r is Some <==> self@.contains_key(name@),
            r matches Some(v) ==> *v == self@[name@],
    {
        match self.find(name) {
            Some(i) => {
                proof {
                    lemma_pairs_lookup(self.pairs(), i as int);
                }
                Some(&self.entries[i].1)
            },
            None => None,
        }
    }

    /// Whether the map holds `name`.
    pub fn contains(&self, name: &str) -> (r: bool)
        requires
            self.wf(),
        ensures
            r == self@.contains_key(name@),
    {
        self.find(name).is_some()
    }

    /// The value stored at position `i`, to be changed in place.
    pub fn value_mut(&mut self, i: usize) -> (r: &mut V)
        requires
            i < old(self).pairs().len(),
        ensures
            *r == old(self).pairs()[i as int].1,
            final(self).pairs() == old(self).pairs().update(i as int, (old(self).pairs()[i as int].0, *final(r))),
    {
        let ghost before = self.pairs();
        let r = &mut self.entries[i].1;
        r
    }

    /// Replaces the value at position `i`, giving back the old one.
    pub fn replace_at(&mut self, i: usize, v: V) -> (old_v: V)
        requires
            i < old(self).pairs().len(),
        ensures
            old_v == old(self).pairs()[i as int].1,
            final(self).pairs() == old(self).pairs().update(i as int, (old(self).pairs()[i as int].0, v)),
    {
        let (k, old_v) = self.entries.remove(i);
        self.entries.insert(i, (k, v));
        assert(self.pairs() =~= old(self).pairs().update(i as int, (old(self).pairs()[i as int].0, v)));
        old_v
    }

    /// Stores `v` under `name`: an existing entry keeps its position, a new one goes last.
    pub fn insert(&mut self, name: String, v: V)
        requires
            old(self).wf(),
        ensures
            final(self).wf(),
            final(self)@ == old(self)@.insert(name@, v),
            old(self)@.contains_key(name@) ==> final(self).names() == old(self).names(),
            !old(self)@.contains_key(name@) ==> final(self).pairs() == old(self).pairs().push((name@, v)),
    {
        match self.find(name.as_str()) {
            Some(i) => {
                let ghost before = self.pairs();
                let _ = self.replace_at(i, v);
                proof {
                    let after = self.pairs();
                    assert(pair_names(after) =~= pair_names(before));
                    assert(names_distinct(after)) by {
                        assert forall|a: int, b: int| 0 <= a < b < after.len() implies after[a].0 != after[b].0 by {
                            assert(after[a].0 == before[a].0);
                            assert(after[b].0 == before[b].0);
                        }
                    }
                    assert forall|k: Seq<char>| #![auto] after.len() >= 0 implies
                        pairs_to_map(after).contains_key(k) == (pairs_to_map(before).insert(name@, v)).contains_key(k) by {
                        if exists|j: int| 0 <= j < before.len() && before[j].0 == k {
                            let j = choose|j: int| 0 <= j < before.len() && before[j].0 == k;
                            assert(after[j].0 == k);
                        }
                        if exists|j: int| 0 <= j < after.len() && after[j].0 == k {
                            let j = choose|j: int| 0 <= j < after.len() && after[j].0 == k;
                            assert(before[j].0 == k);
                        }
                    }
                    assert forall|k: Seq<char>| #[trigger] pairs_to_map(after).contains_key(k) implies
                        pairs_to_map(after)[k] == (pairs_to_map(before).insert(name@, v))[k] by {
                        let j = choose|j: int| 0 <= j < after.len() && after[j].0 == k;
                        lemma_pairs_lookup(after, j);
                        lemma_pairs_lookup(before, j);
                    }
                    assert(pairs_to_map(after) =~= pairs_to_map(before).insert(name@, v));
                }
            },
            None => {
                let ghost before = self.pairs();
                self.entries.push((name, v));
                proof {
                    let after = self.pairs();
                    assert(after =~= before.push((name@, v)));
                    assert(names_distinct(after));
                    assert forall|k: Seq<char>| #![auto] after.len() >= 0 implies
                        pairs_to_map(after).contains_key(k) == (pairs_to_map(before).insert(name@, v)).contains_key(k) by {
                        if exists|j: int| 0 <= j < after.len() && after[j].0 == k {
                            let j = choose|j: int| 0 <= j < after.len() && after[j].0 == k;
                            if j < before.len() {
                                assert(before[j].0 == k);
                            }
                        }
                        if exists|j: int| 0 <= j < before.len() && before[j].0 == k {
                            let j = choose|j: int| 0 <= j < before.len() && before[j].0 == k;
                            assert(after[j].0 == k);
                        }
                        if k == name@ {
                            assert(after[before.len() as int].0 == k);
                        }
                    }
                    assert forall|k: Seq<char>| #[trigger] pairs_to_map(after).contains_key(k) implies
                        pairs_to_map(after)[k] == (pairs_to_map(before).insert(name@, v))[k] by {
                        let j = choose|j: int| 0 <= j < after.len() && after[j].0 == k;
                        lemma_pairs_lookup(after, j);
                        if j < before.len() {
                            lemma_pairs_lookup(before, j);
                        }
                    }
                    assert(pairs_to_map(after) =~= pairs_to_map(before).insert(name@, v));
                }
            },
        }
    }

    /// Removes the entry for `name`, if there is one, keeping the others in order.
    pub fn remove(&mut self, name: &str) -> (r: Option<V>)
        requires
            old(self).wf(),
        ensures
            final(self).wf(),
            final(self)@ == old(self)@.remove(name@),
            r is Some <==> old(self)@.contains_key(name@),
            r matches Some(v) ==> v == old(self)@[name@],
            old(self)@.contains_key(name@) ==> final(self).pairs() == old(self).pairs().remove(
                index_of_name(old(self).pairs(), name@)->0,
            ),
            !old(self)@.contains_key(name@) ==> final(self).pairs() == old(self).pairs(),
    {
        match self.find(name) {
            Some(i) => {
                let ghost before = self.pairs();
                proof {
                    lemma_pairs_lookup(before, i as int);
                }
                let (_k, v) = self.entries.remove(i);
                proof {
                    let after = self.pairs();
                    assert(after =~= before.remove(i as int));
                    assert(names_distinct(after)) by {
                        assert forall|a: int, b: int| 0 <= a < b < after.len() implies after[a].0 != after[b].0 by {
                            let a0 = if a < i { a } else { a + 1 };
                            let b0 = if b < i { b } else { b + 1 };
                            assert(after[a] == before[a0]);
                            assert(after[b] == before[b0]);
                        }
                    }
                    assert forall|k: Seq<char>| #![auto] after.len() >= 0 implies
                        pairs_to_map(after).contains_key(k) == pairs_to_map(before).remove(name@).contains_key(k) by {
                        if exists|j: int| 0 <= j < after.len() && after[j].0 == k {
                            let j = choose|j: int| 0 <= j < after.len() && after[j].0 == k;
                            let j0 = if j < i { j } else { j + 1 };
                            assert(before[j0].0 == k);
                            assert(j0 != i);
                        }
                        if k != name@ && exists|j: int| 0 <= j < before.len() && before[j].0 == k {
                            let j = choose|j: int| 0 <= j < before.len() && before[j].0 == k;
                            assert(j != i);
                            let j1 = if j < i { j } else { j - 1 };
                            assert(after[j1].0 == k);
                        }
                    }
                    assert forall|k: Seq<char>| #[trigger] pairs_to_map(after).contains_key(k) implies
                        pairs_to_map(after)[k] == pairs_to_map(before).remove(name@)[k] by {
                        let j = choose|j: int| 0 <= j < after.len() && after[j].0 == k;
                        let j0 = if j < i { j } else { j + 1 };
                        lemma_pairs_lookup(after, j);
                        lemma_pairs_lookup(before, j0);
                    }
                    assert(pairs_to_map(after) =~= pairs_to_map(before).remove(name@));
                }
                Some(v)
            },
            None => {
                assert(self@ =~= self@.remove(name@));
                None
            },
        }
    }

    /// Removes every entry.
    pub fn clear(&mut self)
        ensures
            final(self).wf(),
            final(self).pairs() == Seq::<(Seq<char>, V)>::empty(),
            final(self)@ == Map::<Seq<char>, V>::empty(),
    {
        self.entries.clear();
        assert(self.pairs() =~= Seq::<(Seq<char>, V)>::empty());
        assert(self@ =~= Map::<Seq<char>, V>::empty());
    }

    /// The names in insertion order.
    pub fn name_list(&self) -> (r: Vec<String>)
        ensures
            r@.map_values(|s: String| s@) == self.names(),
    {
        let mut r: Vec<String> = Vec::new();
        let mut i: usize = 0;
        while i < self.entries.len()
            invariant
                i <= self.entries.len(),
                r@.len() == i,
                forall|j: int| 0 <= j < i ==> #[trigger] r@[j]@ == self.pairs()[j].0,
            decreases self.entries.len() - i,
        {
            r.push(self.entries[i].0.clone());
            i = i + 1;
        }
        assert(r@.map_values(|s: String| s@) =~= self.names());
        r
    }
}

impl NameMap<String> {
    /// A copy of a map of texts.
    pub fn clone_texts(&self) -> (r: Self)
        ensures
            r.pairs() == self.pairs(),
            r@ == self@,
    {
        let mut entries: Vec<(String, String)> = Vec::new();
        let mut i: usize = 0;
        while i < self.entries.len()
            invariant
                i <= self.entries.len(),
                entries@.len() == i,
                forall|j: int| 0 <= j < i ==> #[trigger] entries@[j].0@ == self.entries@[j].0@ && entries@[j].1 == self.entries@[j].1,
            decreases self.entries.len() - i,
        {
            let k = self.entries[i].0.clone();
            let v = self.entries[i].1.clone();
            entries.push((k, v));
            i = i + 1;
        }
        let r = NameMap { entries };
        assert(r.pairs() =~= self.pairs());
        r
    }
}

impl<V> View for NameMap<V> {
    type V = Map<Seq<char>, V>;

    open spec fn view(&self) -> Map<Seq<char>, V> {
        pairs_to_map(self.pairs())
    }
}

impl<V: Clone> Clone for NameMap<V> {
    fn clone(&self) -> (r: Self)
        ensures
            r.pairs().len() == self.pairs().len(),
            forall|i: int| 0 <= i < self.pairs().len() ==> (#[trigger] r.pairs()[i]).0 == self.pairs()[i].0,
    {
        let mut entries: Vec<(String, V)> = Vec::new();
        let mut i: usize = 0;
        while i < self.entries.len()
            invariant
                i <= self.entries.len(),
                entries@.len() == i,
                forall|j: int| 0 <= j < i ==> #[trigger] entries@[j].0@ == self.entries@[j].0@,
            decreases self.entries.len() - i,
        {
            let k = self.entries[i].0.clone();
            let v = self.entries[i].1.clone();
            entries.push((k, v));
            i = i + 1;
        }
        NameMap { entries }
    }
}

} // verus!
