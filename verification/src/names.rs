//! A map from names to values that keeps the order in which names first came.
use crate::text::same_text;
use vstd::prelude::*;

verus! {

/// Whether no name occurs twice.
pub open spec fn names_distinct<V>(pairs: Seq<(Seq<char>, V)>) -> bool {
    forall|i: int, j: int| 0 <= i < j < pairs.len() ==> (#[trigger] pairs[i]).0 != (
    #[trigger] pairs[j]).0
}

/// Whether some pair has the given name.
pub open spec fn names_contain<V>(pairs: Seq<(Seq<char>, V)>, name: Seq<char>) -> bool {
    exists|i: int| 0 <= i < pairs.len() && (#[trigger] pairs[i]).0 == name
}

/// The position of a pair with the given name.
pub open spec fn position_of<V>(pairs: Seq<(Seq<char>, V)>, name: Seq<char>) -> int {
    choose|i: int| 0 <= i < pairs.len() && (#[trigger] pairs[i]).0 == name
}

/// The pairs as a map.
pub open spec fn pairs_map<V>(pairs: Seq<(Seq<char>, V)>) -> Map<Seq<char>, V> {
    Map::new(
        |name: Seq<char>| names_contain(pairs, name),
        |name: Seq<char>| pairs[position_of(pairs, name)].1,
    )
}

/// Named values. No name occurs twice.
#[derive(Debug)]
pub struct NameMap<V> {
    entries: Vec<(String, V)>,
}

impl<V> View for NameMap<V> {
    type V = Map<Seq<char>, V>;

    open spec fn view(&self) -> Map<Seq<char>, V> {
        pairs_map(self.pairs())
    }
}

impl<V: Clone> Clone for NameMap<V> {
    fn clone(&self) -> (res: Self)
        ensures
            res.pairs().len() == self.pairs().len(),
            forall|i: int|
                #![trigger res.pairs()[i]]
                0 <= i < self.pairs().len() ==> res.pairs()[i].0 == self.pairs()[i].0 && cloned(
                    self.pairs()[i].1,
                    res.pairs()[i].1,
                ),
    {
        proof {
            use_type_invariant(self);
        }
        let mut entries: Vec<(String, V)> = Vec::new();
        let mut i: usize = 0;
        while i < self.entries.len()
            invariant
                i <= self.entries@.len(),
                entries@.len() == i,
                forall|j: int|
                    0 <= j < i ==> (#[trigger] entries@[j]).0@ == self.entries@[j].0@ && cloned(
                        self.entries@[j].1,
                        entries@[j].1,
                    ),
            decreases self.entries@.len() - i,
        {
            entries.push((self.entries[i].0.clone(), self.entries[i].1.clone()));
            i += 1;
        }
        let ghost pairs = entries@.map_values(|entry: (String, V)| (entry.0@, entry.1));
        assert forall|a: int, b: int| 0 <= a < b < pairs.len() implies (#[trigger] pairs[a]).0 != (
        #[trigger] pairs[b]).0 by {
            assert(self.pairs()[a].0 != self.pairs()[b].0);
        }
        NameMap { entries }
    }
}

impl<V> NameMap<V> {
    /// The names and their values, in order.
    pub closed spec fn pairs(&self) -> Seq<(Seq<char>, V)> {
        self.entries@.map_values(|entry: (String, V)| (entry.0@, entry.1))
    }

    #[verifier::type_invariant]
    spec fn inv(&self) -> bool {
        names_distinct(self.pairs())
    }

    /// A map without names.
    pub fn new() -> (res: Self)
        ensures
            res.pairs() == Seq::<(Seq<char>, V)>::empty(),
            res@ == Map::<Seq<char>, V>::empty(),
    {
        let res = NameMap { entries: Vec::new() };
        assert(res.pairs() =~= Seq::<(Seq<char>, V)>::empty());
        assert(res@ =~= Map::<Seq<char>, V>::empty());
        res
    }

    /// The number of names.
    pub fn len(&self) -> (len: usize)
        ensures
            len == self.pairs().len(),
            names_distinct(self.pairs()),
    {
        proof {
            use_type_invariant(self);
        }
        self.entries.len()
    }

    /// The position of a name, if it is there.
    fn find(entries: &Vec<(String, V)>, name: &str) -> (res: Option<usize>)
        ensures
            match res {
                Some(i) => i < entries@.len() && entries@[i as int].0@ == name@,
                None => forall|i: int| 0 <= i < entries@.len() ==> (#[trigger] entries@[i]).0@ != name@,
            },
    {
        let mut i: usize = 0;
        while i < entries.len()
            invariant
                i <= entries@.len(),
                forall|j: int| 0 <= j < i ==> (#[trigger] entries@[j]).0@ != name@,
            decreases entries@.len() - i,
        {
            if same_text(entries[i].0.as_str(), name) {
                return Some(i);
            }
            i += 1;
        }
        None
    }

    /// The value of a name, if the name is there.
    pub fn get(&self, name: &str) -> (res: Option<&V>)
        ensures
            match res {
                Some(value) => self@.contains_key(name@) && *value == self@[name@],
                None => !self@.contains_key(name@),
            },
    {
        proof {
            use_type_invariant(self);
        }
        match Self::find(&self.entries, name) {
            Some(i) => {
                assert(self.pairs()[i as int].0 == name@);
                Some(&self.entries[i].1)
            },
            None => None,
        }
    }

    /// Whether the name is there.
    pub fn contains_key(&self, name: &str) -> (res: bool)
        ensures
            res == self@.contains_key(name@),
    {
        self.get(name).is_some()
    }

    /// The name at a position, with its value.
    pub fn pair_at(&self, index: usize) -> (res: (&str, &V))
        requires
            index < self.pairs().len(),
        ensures
            (res.0@, *res.1) == self.pairs()[index as int],
    {
        let entry = &self.entries[index];
        (entry.0.as_str(), &entry.1)
    }

    /// Gives a name a value: a new one in place, if the name is there already.
    pub fn insert(&mut self, name: String, value: V)
        ensures
            final(self)@ == old(self)@.insert(name@, value),
            final(self).pairs() == if old(self)@.contains_key(name@) {
                old(self).pairs().update(position_of(old(self).pairs(), name@), (name@, value))
            } else {
                old(self).pairs().push((name@, value))
            },
    {
        proof {
            use_type_invariant(&*self);
        }
        let ghost before = self.pairs();
        let ghost view = self@;
        let mut entries: Vec<(String, V)> = Vec::new();
        std::mem::swap(&mut entries, &mut self.entries);
        let ghost taken = entries@;
        assert(before == taken.map_values(|entry: (String, V)| (entry.0@, entry.1)));
        match Self::find(&entries, name.as_str()) {
            Some(i) => {
                assert(before[i as int].0 == name@);
                assert(position_of(before, name@) == i);
                let ghost entry = (name, value);
                entries.set(i, (name, value));
                assert(entries@.map_values(|entry: (String, V)| (entry.0@, entry.1)) =~= before.update(
                    i as int,
                    (entry.0@, entry.1),
                ));
            },
            None => {
                let ghost entry = (name, value);
                assert forall|i: int| 0 <= i < before.len() implies (#[trigger] before[i]).0
                    != name@ by {
                    assert(taken[i].0@ != name@);
                }
                entries.push((name, value));
                assert(entries@.map_values(|entry: (String, V)| (entry.0@, entry.1)) =~= before.push(
                    (entry.0@, entry.1),
                ));
            },
        }
        self.entries = entries;
        proof {
            lemma_pairs_insert(before, name@, value);
        }
    }

    /// The names with their values, in order.
    pub fn into_pairs(self) -> (res: Vec<(String, V)>)
        ensures
            res@.map_values(|entry: (String, V)| (entry.0@, entry.1)) == self.pairs(),
            names_distinct(self.pairs()),
    {
        proof {
            use_type_invariant(&self);
        }
        self.entries
    }
}

/// What giving a name a value does to the map of the pairs.
proof fn lemma_pairs_insert<V>(pairs: Seq<(Seq<char>, V)>, name: Seq<char>, value: V)
    requires
        names_distinct(pairs),
    ensures
        ({
            let after = if names_contain(pairs, name) {
                pairs.update(position_of(pairs, name), (name, value))
            } else {
                pairs.push((name, value))
            };
            &&& names_distinct(after)
            &&& pairs_map(after) == pairs_map(pairs).insert(name, value)
        }),
{
    let after = if names_contain(pairs, name) {
        pairs.update(position_of(pairs, name), (name, value))
    } else {
        pairs.push((name, value))
    };
    let at = if names_contain(pairs, name) {
        position_of(pairs, name)
    } else {
        pairs.len() as int
    };
    assert(after[at] == (name, value));
    assert(names_distinct(after)) by {
        assert forall|i: int, j: int| 0 <= i < j < after.len() implies (#[trigger] after[i]).0 != (
        #[trigger] after[j]).0 by {
            if i != at && j != at {
                assert(pairs[i].0 != pairs[j].0);
            } else if i == at {
                assert(after[j] == pairs[j]);
                assert(pairs[j].0 != name);
            } else {
                assert(after[i] == pairs[i]);
                assert(pairs[i].0 != name);
            }
        }
    }
    assert forall|other: Seq<char>| #[trigger]
        pairs_map(after).contains_key(other) == pairs_map(pairs).insert(name, value).contains_key(
            other,
        ) by {
        if names_contain(pairs, other) {
            let i = position_of(pairs, other);
            assert(after[i].0 == other);
        }
        if names_contain(after, other) && other != name {
            let i = position_of(after, other);
            assert(pairs[i].0 == other);
        }
    }
    assert forall|other: Seq<char>| #[trigger] pairs_map(after).contains_key(other) implies pairs_map(
        after,
    )[other] == pairs_map(pairs).insert(name, value)[other] by {
        let i = position_of(after, other);
        if other == name {
            assert(i == at);
        } else {
            assert(pairs[i].0 == other);
            assert(position_of(pairs, other) == i);
        }
    }
    assert(pairs_map(after) =~= pairs_map(pairs).insert(name, value));
}

/// In a map without repeated names, each pair gives its name's value.
pub proof fn lemma_pair_is_entry<V>(pairs: Seq<(Seq<char>, V)>, index: int)
    requires
        names_distinct(pairs),
        0 <= index < pairs.len(),
    ensures
        pairs_map(pairs).contains_key(pairs[index].0),
        pairs_map(pairs)[pairs[index].0] == pairs[index].1,
{
    assert(names_contain(pairs, pairs[index].0));
    assert(position_of(pairs, pairs[index].0) == index);
}

} // verus!
