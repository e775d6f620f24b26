//! The header mapping of a message: names to values, case-sensitive, one value
//! per name, the last value written for a name being the one that stays.

use vstd::prelude::*;
use crate::text::str_eq;

verus! {

/// One header as text: its name and its value.
pub type Pair = (Seq<char>, Seq<char>);

/// The place of `name` among `pairs`, or -1 where no pair has that name.
pub open spec fn name_index(pairs: Seq<Pair>, name: Seq<char>) -> int
    decreases pairs.len(),
{
    if pairs.len() == 0 {
        -1
    } else if pairs.last().0 == name {
        pairs.len() - 1
    } else {
        name_index(pairs.drop_last(), name)
    }
}

/// No name occurs twice.
pub open spec fn distinct_names(pairs: Seq<Pair>) -> bool {
    forall|i: int, j: int|
        0 <= i < j < pairs.len() ==> (#[trigger] pairs[i]).0 != (#[trigger] pairs[j]).0
}

/// The mapping that a list of pairs stands for: a later pair overrides an
/// earlier one of the same name.
pub open spec fn pairs_to_map(pairs: Seq<Pair>) -> Map<Seq<char>, Seq<char>>
    decreases pairs.len(),
{
    if pairs.len() == 0 {
        Map::empty()
    } else {
        pairs_to_map(pairs.drop_last()).insert(pairs.last().0, pairs.last().1)
    }
}

/// The list after `name` has been given `value`: the pair of that name is
/// overwritten where it stands, a new name goes to the end.
pub open spec fn put_pair(pairs: Seq<Pair>, name: Seq<char>, value: Seq<char>) -> Seq<Pair> {
    let i = name_index(pairs, name);
    if i >= 0 {
        pairs.update(i, (name, value))
    } else {
        pairs.push((name, value))
    }
}

/// The list without the pair of that name.
pub open spec fn drop_pair(pairs: Seq<Pair>, name: Seq<char>) -> Seq<Pair> {
    let i = name_index(pairs, name);
    if i >= 0 {
        pairs.remove(i)
    } else {
        pairs
    }
}

/// `name_index` finds the name where there is one, and only then.
pub proof fn lemma_name_index(pairs: Seq<Pair>, name: Seq<char>)
    ensures
        -1 <= name_index(pairs, name) < pairs.len(),
        name_index(pairs, name) >= 0 ==> pairs[name_index(pairs, name)].0 == name,
        name_index(pairs, name) < 0 ==> forall|i: int|
            0 <= i < pairs.len() ==> (#[trigger] pairs[i]).0 != name,
    decreases pairs.len(),
{
    if pairs.len() > 0 && pairs.last().0 != name {
        lemma_name_index(pairs.drop_last(), name);
        assert forall|i: int| 0 <= i < pairs.len() && name_index(pairs, name) < 0 implies (
        #[trigger] pairs[i]).0 != name by {
            if i < pairs.len() - 1 {
                assert(pairs.drop_last()[i] == pairs[i]);
            }
        }
    }
}

/// Among distinct names, the index of the name at place `i` is `i`.
pub proof fn lemma_name_index_at(pairs: Seq<Pair>, i: int)
    requires
        distinct_names(pairs),
        0 <= i < pairs.len(),
    ensures
        name_index(pairs, pairs[i].0) == i,
{
    lemma_name_index(pairs, pairs[i].0);
}

/// What the mapping of a list holds: exactly the names of the list, each with
/// the value of its last pair.
pub proof fn lemma_pairs_to_map(pairs: Seq<Pair>, name: Seq<char>)
    ensures
        pairs_to_map(pairs).dom().finite(),
        pairs_to_map(pairs).contains_key(name) <==> name_index(pairs, name) >= 0,
        name_index(pairs, name) >= 0 ==> pairs_to_map(pairs)[name] == pairs[name_index(
            pairs,
            name,
        )].1,
    decreases pairs.len(),
{
    if pairs.len() > 0 {
        lemma_pairs_to_map(pairs.drop_last(), name);
        lemma_name_index(pairs.drop_last(), name);
    }
}

/// A list of distinct names has as many pairs as its mapping has names.
pub proof fn lemma_pairs_to_map_len(pairs: Seq<Pair>)
    requires
        distinct_names(pairs),
    ensures
        pairs_to_map(pairs).dom().finite(),
        pairs_to_map(pairs).len() == pairs.len(),
    decreases pairs.len(),
{
    if pairs.len() > 0 {
        let rest = pairs.drop_last();
        assert(distinct_names(rest)) by {
            assert forall|i: int, j: int| 0 <= i < j < rest.len() implies (#[trigger] rest[i]).0 != (
            #[trigger] rest[j]).0 by {
                assert(rest[i] == pairs[i] && rest[j] == pairs[j]);
            }
        }
        lemma_pairs_to_map_len(rest);
        lemma_pairs_to_map(rest, pairs.last().0);
        lemma_name_index(rest, pairs.last().0);
        if name_index(rest, pairs.last().0) >= 0 {
            let i = name_index(rest, pairs.last().0);
            assert(rest[i] == pairs[i]);
            assert(pairs[i].0 != pairs[pairs.len() - 1].0);
        }
    }
}

/// Writing a value keeps the names distinct and writes it into the mapping.
pub proof fn lemma_put_pair(pairs: Seq<Pair>, name: Seq<char>, value: Seq<char>)
    requires
        distinct_names(pairs),
    ensures
        distinct_names(put_pair(pairs, name, value)),
        pairs_to_map(put_pair(pairs, name, value)) == pairs_to_map(pairs).insert(name, value),
    decreases pairs.len(),
{
    lemma_name_index(pairs, name);
    let i = name_index(pairs, name);
    let after = put_pair(pairs, name, value);
    if i < 0 {
        assert(after.drop_last() == pairs);
        assert forall|a: int, b: int| 0 <= a < b < after.len() implies (#[trigger] after[a]).0 != (
        #[trigger] after[b]).0 by {
            if b < pairs.len() {
                assert(after[a] == pairs[a] && after[b] == pairs[b]);
            } else {
                assert(after[a] == pairs[a]);
            }
        }
    } else {
        assert forall|a: int, b: int| 0 <= a < b < after.len() implies (#[trigger] after[a]).0 != (
        #[trigger] after[b]).0 by {
            assert(after[a].0 == pairs[a].0 && after[b].0 == pairs[b].0);
        }
        let rest = pairs.drop_last();
        assert(distinct_names(rest)) by {
            assert forall|a: int, b: int| 0 <= a < b < rest.len() implies (#[trigger] rest[a]).0 != (
            #[trigger] rest[b]).0 by {
                assert(rest[a] == pairs[a] && rest[b] == pairs[b]);
            }
        }
        if i == pairs.len() - 1 {
            assert(after.drop_last() == rest);
            assert(after.last() == (name, value));
            assert(pairs_to_map(after) == pairs_to_map(rest).insert(name, value));
            assert(pairs_to_map(pairs) == pairs_to_map(rest).insert(name, pairs.last().1));
            assert(pairs_to_map(rest).insert(name, pairs.last().1).insert(name, value)
                == pairs_to_map(rest).insert(name, value));
        } else {
            lemma_put_pair(rest, name, value);
            assert(pairs.last().0 != name) by {
                assert(pairs[i].0 != pairs[pairs.len() - 1].0);
            }
            assert(name_index(rest, name) == i);
            assert(after.drop_last() == put_pair(rest, name, value));
            assert(after.last() == pairs.last());
            assert(pairs_to_map(rest).insert(name, value).insert(pairs.last().0, pairs.last().1)
                == pairs_to_map(rest).insert(pairs.last().0, pairs.last().1).insert(name, value));
        }
    }
}

/// Dropping a name keeps the names distinct and takes it out of the mapping.
pub proof fn lemma_drop_pair(pairs: Seq<Pair>, name: Seq<char>)
    requires
        distinct_names(pairs),
    ensures
        distinct_names(drop_pair(pairs, name)),
        pairs_to_map(drop_pair(pairs, name)) == pairs_to_map(pairs).remove(name),
    decreases pairs.len(),
{
    lemma_name_index(pairs, name);
    lemma_pairs_to_map(pairs, name);
    let i = name_index(pairs, name);
    let after = drop_pair(pairs, name);
    if i < 0 {
        assert(pairs_to_map(pairs).remove(name) == pairs_to_map(pairs));
    } else {
        assert forall|a: int, b: int| 0 <= a < b < after.len() implies (#[trigger] after[a]).0 != (
        #[trigger] after[b]).0 by {
            let a0 = if a < i { a } else { a + 1 };
            let b0 = if b < i { b } else { b + 1 };
            assert(after[a] == pairs[a0] && after[b] == pairs[b0]);
        }
        let rest = pairs.drop_last();
        assert(distinct_names(rest)) by {
            assert forall|a: int, b: int| 0 <= a < b < rest.len() implies (#[trigger] rest[a]).0 != (
            #[trigger] rest[b]).0 by {
                assert(rest[a] == pairs[a] && rest[b] == pairs[b]);
            }
        }
        lemma_pairs_to_map(rest, name);
        lemma_name_index(rest, name);
        if i == pairs.len() - 1 {
            assert(after == rest);
            if name_index(rest, name) >= 0 {
                let j = name_index(rest, name);
                assert(rest[j] == pairs[j]);
                assert(pairs[j].0 != pairs[pairs.len() - 1].0);
            }
            assert(pairs_to_map(rest).insert(name, pairs.last().1).remove(name) == pairs_to_map(
                rest,
            ));
        } else {
            lemma_drop_pair(rest, name);
            assert(pairs.last().0 != name) by {
                assert(pairs[i].0 != pairs[pairs.len() - 1].0);
            }
            assert(name_index(rest, name) == i);
            assert(after.drop_last() == drop_pair(rest, name));
            assert(after.last() == pairs.last());
            assert(pairs_to_map(rest).remove(name).insert(pairs.last().0, pairs.last().1)
                == pairs_to_map(rest).insert(pairs.last().0, pairs.last().1).remove(name));
        }
    }
}

/// The text of each entry.
spec fn pairs_of(entries: Seq<(String, String)>) -> Seq<Pair> {
    Seq::new(entries.len(), |i: int| (entries[i].0@, entries[i].1@))
}

/// A header mapping.
#[derive(Debug)]
pub struct Headers {
    entries: Vec<(String, String)>,
}

impl View for Headers {
    type V = Map<Seq<char>, Seq<char>>;

    /// The mapping from each name to its value.
    open spec fn view(&self) -> Map<Seq<char>, Seq<char>> {
        pairs_to_map(self.pairs())
    }
}

impl Headers {
    /// The headers in the order in which their names were first written.
    pub closed spec fn pairs(&self) -> Seq<Pair> {
        pairs_of(self.entries@)
    }

    #[verifier::type_invariant]
    spec fn valid(&self) -> bool {
        distinct_names(self.pairs())
    }

    /// A mapping without headers.
    pub fn new() -> (h: Self)
        ensures
            h.pairs() == Seq::<Pair>::empty(),
            h@ == Map::<Seq<char>, Seq<char>>::empty(),
    {
        let h = Headers { entries: Vec::new() };
        assert(h.pairs() == Seq::<Pair>::empty());
        h
    }

    /// The number of headers. No name is counted twice: the names are distinct.
    pub fn len(&self) -> (n: usize)
        ensures
            n == self.pairs().len(),
            n == self@.len(),
            distinct_names(self.pairs()),
    {
        proof {
            use_type_invariant(self);
            lemma_pairs_to_map_len(self.pairs());
        }
        self.entries.len()
    }

    /// Whether there is no header.
    pub fn is_empty(&self) -> (empty: bool)
        ensures
            empty == (self.pairs().len() == 0),
            empty == (self@ == Map::<Seq<char>, Seq<char>>::empty()),
    {
        proof {
            use_type_invariant(self);
            lemma_pairs_to_map_len(self.pairs());
            if self.pairs().len() == 0 {
                assert(self@ == Map::<Seq<char>, Seq<char>>::empty());
            }
        }
        self.entries.len() == 0
    }

    /// The place of a name among the entries, if it is there.
    fn find(&self, name: &str) -> (at: Option<usize>)
        ensures
            match at {
                Some(i) => i < self.pairs().len() && i == name_index(self.pairs(), name@),
                None => name_index(self.pairs(), name@) < 0,
            },
    {
        proof {
            use_type_invariant(self);
        }
        let mut i: usize = 0;
        while i < self.entries.len()
            invariant
                i <= self.entries@.len(),
                distinct_names(self.pairs()),
                forall|j: int| 0 <= j < i ==> (#[trigger] self.pairs()[j]).0 != name@,
            decreases self.entries@.len() - i,
        {
            if str_eq(self.entries[i].0.as_str(), name) {
                proof {
                    assert(self.pairs()[i as int].0 == name@);
                    lemma_name_index_at(self.pairs(), i as int);
                }
                return Some(i);
            }
            assert(self.pairs()[i as int].0 != name@);
            i += 1;
        }
        proof {
            lemma_name_index(self.pairs(), name@);
        }
        None
    }

    /// The value of a header, if the name is there.
    pub fn get(&self, name: &str) -> (value: Option<&String>)
        ensures
            value is Some == self@.contains_key(name@),
            value is Some ==> value->0@ == self@[name@],
    {
        proof {
            lemma_pairs_to_map(self.pairs(), name@);
        }
        match self.find(name) {
            Some(i) => Some(&self.entries[i].1),
            None => None,
        }
    }

    /// Whether a header of that name is there.
    pub fn contains_key(&self, name: &str) -> (found: bool)
        ensures
            found == self@.contains_key(name@),
    {
        proof {
            lemma_pairs_to_map(self.pairs(), name@);
        }
        self.find(name).is_some()
    }

    /// The name and value at place `i` of `pairs`, or nothing where the list
    /// is shorter.
    pub fn entry(&self, i: usize) -> (e: Option<(&String, &String)>)
        ensures
            match e {
                Some((name, value)) => i < self.pairs().len() && (name@, value@) == self.pairs()[i as int],
                None => i >= self.pairs().len(),
            },
    {
        if i < self.entries.len() {
            Some((&self.entries[i].0, &self.entries[i].1))
        } else {
            None
        }
    }

    /// Gives `name` the value `value`, whatever it had before.
    pub fn insert(&mut self, name: String, value: String)
        ensures
            final(self).pairs() == put_pair(old(self).pairs(), name@, value@),
            final(self)@ == old(self)@.insert(name@, value@),
    {
        proof {
            use_type_invariant(&*self);
            lemma_put_pair(self.pairs(), name@, value@);
        }
        let found = self.find(name.as_str());
        let mut entries: Vec<(String, String)> = Vec::new();
        core::mem::swap(&mut entries, &mut self.entries);
        let ghost before = entries@;
        match found {
            Some(i) => {
                entries.set(i, (name, value));
                assert(pairs_of(before).update(i as int, (name@, value@)) == pairs_of(entries@));
            },
            None => {
                entries.push((name, value));
                assert(pairs_of(before).push((name@, value@)) == pairs_of(entries@));
            },
        }
        self.entries = entries;
    }

    /// Takes the header of that name out, if it is there.
    pub fn remove(&mut self, name: &str)
        ensures
            final(self).pairs() == drop_pair(old(self).pairs(), name@),
            final(self)@ == old(self)@.remove(name@),
    {
        proof {
            use_type_invariant(&*self);
            lemma_drop_pair(self.pairs(), name@);
        }
        let found = self.find(name);
        let mut entries: Vec<(String, String)> = Vec::new();
        core::mem::swap(&mut entries, &mut self.entries);
        let ghost before = entries@;
        match found {
            Some(i) => {
                entries.remove(i);
                assert(pairs_of(before).remove(i as int) == pairs_of(entries@));
            },
            None => {},
        }
        self.entries = entries;
    }

    /// Takes every header out.
    pub fn clear(&mut self)
        ensures
            final(self).pairs() == Seq::<Pair>::empty(),
            final(self)@ == Map::<Seq<char>, Seq<char>>::empty(),
    {
        self.entries = Vec::new();
        assert(self.pairs() == Seq::<Pair>::empty());
    }
}

} // verus!
