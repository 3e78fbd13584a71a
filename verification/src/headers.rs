//! The headers of a message: a map from names to values that remembers the
//! order in which its names came.

use crate::strings::str_eq;
use vstd::prelude::*;

verus! {

/// A name and its value, as characters.
pub type Pair = (Seq<char>, Seq<char>);

/// The map that a list of pairs stands for: a later pair replaces an earlier
/// one of the same name.
pub open spec fn map_of(pairs: Seq<Pair>) -> Map<Seq<char>, Seq<char>>
    decreases pairs.len(),
{
    if pairs.len() == 0 {
        Map::empty()
    } else {
        map_of(pairs.drop_last()).insert(pairs.last().0, pairs.last().1)
    }
}

/// The names of a list of pairs, in its order.
pub open spec fn names_of(pairs: Seq<Pair>) -> Seq<Seq<char>> {
    pairs.map_values(|p: Pair| p.0)
}

/// `pairs` with `value` as the value of `name`: in the place of the pair of
/// that name where there is one, else as a new pair behind the others.
pub open spec fn put(pairs: Seq<Pair>, name: Seq<char>, value: Seq<char>) -> Seq<Pair> {
    if names_of(pairs).contains(name) {
        pairs.update(names_of(pairs).index_of(name), (name, value))
    } else {
        pairs.push((name, value))
    }
}

/// The keys of `map_of(pairs)` are the names that occur in `pairs`.
pub proof fn lemma_map_of_keys(pairs: Seq<Pair>)
    ensures
        forall|name: Seq<char>| #[trigger]
            map_of(pairs).contains_key(name) <==> names_of(pairs).contains(name),
    decreases pairs.len(),
{
    if pairs.len() > 0 {
        let front = pairs.drop_last();
        let names = names_of(pairs);
        lemma_map_of_keys(front);
        assert(names_of(front) =~= names.drop_last());
        assert(names.last() == pairs.last().0);
        assert forall|name: Seq<char>| #[trigger]
            map_of(pairs).contains_key(name) <==> names.contains(name) by {
            // A name occurs in `names` where it is the last or occurs earlier.
            let earlier = names.drop_last();
            assert(map_of(front).contains_key(name) <==> earlier.contains(name));
            if names.contains(name) {
                let i = choose|i: int| 0 <= i < names.len() && names[i] == name;
                if i < names.len() - 1 {
                    assert(earlier[i] == name);
                }
            }
            if earlier.contains(name) {
                let i = choose|i: int| 0 <= i < earlier.len() && earlier[i] == name;
                assert(names[i] == name);
            }
            if name == names.last() {
                assert(names[names.len() - 1] == name);
            }
        }
    }
}

/// The value of a name is that of the last pair of that name.
pub proof fn lemma_map_of_last(pairs: Seq<Pair>, i: int)
    requires
        0 <= i < pairs.len(),
        forall|j: int| i < j < pairs.len() ==> (#[trigger] pairs[j]).0 != pairs[i].0,
    ensures
        map_of(pairs).contains_key(pairs[i].0),
        map_of(pairs)[pairs[i].0] == pairs[i].1,
    decreases pairs.len(),
{
    if i < pairs.len() - 1 {
        let front = pairs.drop_last();
        assert(pairs[pairs.len() - 1].0 != pairs[i].0);
        assert forall|j: int| i < j < front.len() implies (#[trigger] front[j]).0 != front[i].0 by {
            assert(front[j] == pairs[j]);
        }
        lemma_map_of_last(front, i);
    }
}

/// Where no name occurs twice, a new value in the place of a pair is an
/// insertion under that pair's name.
pub proof fn lemma_map_of_update(pairs: Seq<Pair>, i: int, value: Seq<char>)
    requires
        names_of(pairs).no_duplicates(),
        0 <= i < pairs.len(),
    ensures
        map_of(pairs.update(i, (pairs[i].0, value))) == map_of(pairs).insert(pairs[i].0, value),
        names_of(pairs.update(i, (pairs[i].0, value))) == names_of(pairs),
    decreases pairs.len(),
{
    let changed = pairs.update(i, (pairs[i].0, value));
    assert(names_of(changed) =~= names_of(pairs));
    let front = pairs.drop_last();
    if i < pairs.len() - 1 {
        assert(names_of(front) =~= names_of(pairs).drop_last());
        assert(names_of(pairs)[i] != names_of(pairs)[pairs.len() - 1]);
        lemma_map_of_update(front, i, value);
        assert(changed.drop_last() =~= front.update(i, (pairs[i].0, value)));
        assert(map_of(changed) =~= map_of(pairs).insert(pairs[i].0, value));
    } else {
        assert(changed.drop_last() =~= front);
        assert(map_of(changed) =~= map_of(pairs).insert(pairs[i].0, value));
    }
}

/// Headers: each name has one value, and the names keep the order in which
/// they were first inserted. Names are compared character by character.
#[derive(Debug)]
pub struct HeaderMap {
    entries: Vec<(String, String)>,
}

impl View for HeaderMap {
    type V = Map<Seq<char>, Seq<char>>;

    /// The value of each name.
    open spec fn view(&self) -> Map<Seq<char>, Seq<char>> {
        map_of(self.pairs())
    }
}

impl HeaderMap {
    /// The names and values in the order of the names' first insertion.
    pub closed spec fn pairs(&self) -> Seq<Pair> {
        self.entries@.map_values(|e: (String, String)| (e.0@, e.1@))
    }

    /// The names in the order of their first insertion.
    pub open spec fn names(&self) -> Seq<Seq<char>> {
        names_of(self.pairs())
    }

    #[verifier::type_invariant]
    spec fn names_are_unique(&self) -> bool {
        names_of(self.pairs()).no_duplicates()
    }

    /// No headers.
    pub fn new() -> (headers: HeaderMap)
        ensures
            headers.pairs() == Seq::<Pair>::empty(),
            headers@ == Map::<Seq<char>, Seq<char>>::empty(),
    {
        let headers = HeaderMap { entries: Vec::new() };
        assert(headers.pairs() =~= Seq::<Pair>::empty());
        headers
    }

    /// The number of names. No name occurs twice, and the names are the keys
    /// of the view.
    pub fn len(&self) -> (n: usize)
        ensures
            n == self.pairs().len(),
            self.names().no_duplicates(),
            forall|name: Seq<char>| #[trigger]
                self@.contains_key(name) <==> self.names().contains(name),
    {
        proof {
            use_type_invariant(self);
            lemma_map_of_keys(self.pairs());
        }
        self.entries.len()
    }

    /// The place of `name` among the names.
    fn position(&self, name: &str) -> (found: Option<usize>)
        ensures
            match found {
                Some(i) => i < self.pairs().len() && self.pairs()[i as int].0 == name@,
                None => !self.names().contains(name@),
            },
    {
        let mut i: usize = 0;
        while i < self.entries.len()
            invariant
                i <= self.entries@.len(),
                forall|j: int| 0 <= j < i ==> self.pairs()[j].0 != name@,
            decreases self.entries@.len() - i,
        {
            if str_eq(self.entries[i].0.as_str(), name) {
                return Some(i);
            }
            i += 1;
        }
        None
    }

    /// The value of `name`, if it has one.
    pub fn get(&self, name: &str) -> (value: Option<&String>)
        ensures
            match value {
                Some(v) => self@.contains_key(name@) && v@ == self@[name@],
                None => !self@.contains_key(name@),
            },
    {
        proof {
            use_type_invariant(self);
            lemma_map_of_keys(self.pairs());
        }
        match self.position(name) {
            Some(i) => {
                proof {
                    let pairs = self.pairs();
                    assert forall|j: int| i < j < pairs.len() implies (#[trigger] pairs[j]).0
                        != pairs[i as int].0 by {
                        assert(names_of(pairs)[j] != names_of(pairs)[i as int]);
                    }
                    lemma_map_of_last(pairs, i as int);
                }
                Some(&self.entries[i].1)
            },
            None => None,
        }
    }

    /// Whether `name` has a value.
    pub fn contains_key(&self, name: &str) -> (yes: bool)
        ensures
            yes == self@.contains_key(name@),
    {
        self.get(name).is_some()
    }

    /// Gives `name` the value `value`, in place of the one it had, if any. A
    /// new name comes after the others.
    pub fn insert(&mut self, name: String, value: String)
        ensures
            final(self)@ == old(self)@.insert(name@, value@),
            final(self).pairs() == put(old(self).pairs(), name@, value@),
    {
        proof {
            use_type_invariant(&*self);
            lemma_map_of_keys(self.pairs());
        }
        let ghost before = self.pairs();
        let found = self.position(name.as_str());
        // The entries leave `self` while they change: in between `self` is
        // empty, and so keeps its invariant.
        let mut entries: Vec<(String, String)> = Vec::new();
        core::mem::swap(&mut self.entries, &mut entries);
        let ghost after = match found {
            Some(i) => before.update(i as int, (name@, value@)),
            None => before.push((name@, value@)),
        };
        match found {
            Some(i) => {
                proof {
                    lemma_map_of_update(before, i as int, value@);
                    assert(names_of(before)[i as int] == name@);
                }
                entries.set(i, (name, value));
            },
            None => {
                proof {
                    assert(after.drop_last() =~= before);
                    assert(names_of(after) =~= names_of(before).push(name@));
                }
                entries.push((name, value));
            },
        }
        assert(entries@.map_values(|e: (String, String)| (e.0@, e.1@)) =~= after);
        self.entries = entries;
    }

    /// The name in place `i` and its value.
    pub fn entry(&self, i: usize) -> (pair: (&str, &str))
        requires
            i < self.pairs().len(),
        ensures
            (pair.0@, pair.1@) == self.pairs()[i as int],
    {
        (self.entries[i].0.as_str(), self.entries[i].1.as_str())
    }
}

} // verus!
