//! A map from names to values, kept in the order of names.
//!
//! The maps of a netlist are of this type and not `std::collections::HashMap`:
//! what vstd states of a `HashMap` holds only for key types that are known to
//! obey its key model, and `String` is not among them.

use crate::name_order::{
    ascending, distinct, lemma_ascending_distinct, lemma_ascending_is_distinct,
    lemma_name_before_irreflexive, lemma_name_before_transitive, name_before, place, Placement,
};
use vstd::prelude::*;

verus! {

/// The map that a sequence of pairs stands for: each name maps to the value
/// of the last pair that carries it.
pub open spec fn pairs_map<V>(pairs: Seq<(Seq<char>, V)>) -> Map<Seq<char>, V>
    decreases pairs.len(),
{
    if pairs.len() == 0 {
        Map::empty()
    } else {
        pairs_map(pairs.drop_last()).insert(pairs.last().0, pairs.last().1)
    }
}

/// The names of a sequence of pairs, in the same order.
pub open spec fn pair_names<V>(pairs: Seq<(Seq<char>, V)>) -> Seq<Seq<char>> {
    Seq::new(pairs.len(), |i: int| pairs[i].0)
}

/// The value that a sequence of pairs gives to a name, if any.
pub open spec fn pairs_get<V>(pairs: Seq<(Seq<char>, V)>, name: Seq<char>) -> Option<V> {
    if pairs_map(pairs).contains_key(name) {
        Some(pairs_map(pairs)[name])
    } else {
        None
    }
}

/// A name is in the map exactly if some pair carries it.
pub proof fn lemma_pairs_map_domain<V>(pairs: Seq<(Seq<char>, V)>, name: Seq<char>)
    ensures
        pairs_map(pairs).contains_key(name) <==> exists|i: int|
            0 <= i < pairs.len() && (#[trigger] pairs[i]).0 == name,
    decreases pairs.len(),
{
    if pairs.len() > 0 {
        let front = pairs.drop_last();
        lemma_pairs_map_domain(front, name);
        if pairs_map(pairs).contains_key(name) {
            if pairs.last().0 == name {
                assert(pairs[pairs.len() - 1].0 == name);
            } else {
                let i = choose|i: int| 0 <= i < front.len() && (#[trigger] front[i]).0 == name;
                assert(pairs[i].0 == name);
            }
        }
        if exists|i: int| 0 <= i < pairs.len() && (#[trigger] pairs[i]).0 == name {
            let i = choose|i: int| 0 <= i < pairs.len() && (#[trigger] pairs[i]).0 == name;
            if i < pairs.len() - 1 {
                assert(front[i].0 == name);
            }
        }
    }
}

/// The map gives a name the value of the last pair that carries it.
pub proof fn lemma_pairs_map_last<V>(pairs: Seq<(Seq<char>, V)>, i: int)
    requires
        0 <= i < pairs.len(),
        forall|j: int| i < j < pairs.len() ==> (#[trigger] pairs[j]).0 != pairs[i].0,
    ensures
        pairs_map(pairs).contains_key(pairs[i].0),
        pairs_map(pairs)[pairs[i].0] == pairs[i].1,
    decreases pairs.len(),
{
    if i < pairs.len() - 1 {
        let front = pairs.drop_last();
        assert(pairs[pairs.len() - 1].0 != pairs[i].0);
        assert forall|j: int| i < j < front.len() implies (#[trigger] front[j]).0 != front[i].0 by {
            assert(pairs[j].0 != pairs[i].0);
        }
        lemma_pairs_map_last(front, i);
    }
}

/// Where the names are distinct, the map gives each name the value of its
/// pair.
pub proof fn lemma_pairs_map_distinct<V>(pairs: Seq<(Seq<char>, V)>, i: int)
    requires
        distinct(pair_names(pairs)),
        0 <= i < pairs.len(),
    ensures
        pairs_map(pairs).contains_key(pairs[i].0),
        pairs_map(pairs)[pairs[i].0] == pairs[i].1,
{
    let names = pair_names(pairs);
    assert forall|j: int| i < j < pairs.len() implies (#[trigger] pairs[j]).0 != pairs[i].0 by {
        assert(names[i] != names[j]);
    }
    lemma_pairs_map_last(pairs, i);
}

/// Where the names ascend, the map gives each name the value of its pair.
pub proof fn lemma_pairs_map_ascending<V>(pairs: Seq<(Seq<char>, V)>, i: int)
    requires
        ascending(pair_names(pairs)),
        0 <= i < pairs.len(),
    ensures
        pairs_map(pairs).contains_key(pairs[i].0),
        pairs_map(pairs)[pairs[i].0] == pairs[i].1,
{
    lemma_ascending_is_distinct(pair_names(pairs));
    lemma_pairs_map_distinct(pairs, i);
}

/// How many pairs carry a name.
pub open spec fn occurrences<V>(pairs: Seq<(Seq<char>, V)>, name: Seq<char>) -> nat
    decreases pairs.len(),
{
    if pairs.len() == 0 {
        0
    } else {
        occurrences(pairs.drop_last(), name) + if pairs.last().0 == name {
            1nat
        } else {
            0nat
        }
    }
}

/// A name that no pair carries occurs no time.
pub proof fn lemma_occurrences_none<V>(pairs: Seq<(Seq<char>, V)>, name: Seq<char>)
    requires
        forall|i: int| 0 <= i < pairs.len() ==> (#[trigger] pairs[i]).0 != name,
    ensures
        occurrences(pairs, name) == 0,
    decreases pairs.len(),
{
    if pairs.len() > 0 {
        let front = pairs.drop_last();
        assert forall|i: int| 0 <= i < front.len() implies (#[trigger] front[i]).0 != name by {
            assert(pairs[i].0 != name);
        }
        assert(pairs[pairs.len() - 1].0 != name);
        lemma_occurrences_none(front, name);
    }
}

/// Where the names are distinct, no name occurs more than once.
pub proof fn lemma_occurrences_distinct<V>(pairs: Seq<(Seq<char>, V)>, name: Seq<char>)
    requires
        distinct(pair_names(pairs)),
    ensures
        occurrences(pairs, name) <= 1,
    decreases pairs.len(),
{
    if pairs.len() > 0 {
        let front = pairs.drop_last();
        let names = pair_names(pairs);
        assert forall|i: int, j: int| 0 <= i < j < front.len() implies pair_names(front)[i]
            != pair_names(front)[j] by {
            assert(names[i] != names[j]);
        }
        if pairs.last().0 == name {
            assert forall|i: int| 0 <= i < front.len() implies (#[trigger] front[i]).0 != name by {
                assert(names[i] != names[pairs.len() - 1]);
            }
            lemma_occurrences_none(front, name);
        } else {
            lemma_occurrences_distinct(front, name);
        }
    }
}

/// Two ascending sequences of pairs with the same pairs, up to where they
/// stand, are the same map. Stated for a sequence and what it becomes when a
/// pair with a new name is put in at its place in the order.
pub proof fn lemma_pairs_map_insert_new<V>(
    pairs: Seq<(Seq<char>, V)>,
    at: int,
    name: Seq<char>,
    value: V,
)
    requires
        ascending(pair_names(pairs)),
        0 <= at <= pairs.len(),
        forall|j: int| 0 <= j < at ==> name_before((#[trigger] pairs[j]).0, name),
        forall|j: int| at <= j < pairs.len() ==> name_before(name, (#[trigger] pairs[j]).0),
    ensures
        ascending(pair_names(pairs.insert(at, (name, value)))),
        pairs_map(pairs.insert(at, (name, value))) == pairs_map(pairs).insert(name, value),
{
    let grown = pairs.insert(at, (name, value));
    let names = pair_names(pairs);
    let grown_names = pair_names(grown);
    assert forall|i: int, j: int| 0 <= i < j < grown_names.len() implies name_before(
        grown_names[i],
        grown_names[j],
    ) by {
        let a = if i < at { i } else { i - 1 };
        let b = if j < at { j } else { j - 1 };
        if i == at {
            assert(grown[j] == pairs[b]);
        } else if j == at {
            assert(grown[i] == pairs[a]);
        } else {
            assert(grown[i] == pairs[a]);
            assert(grown[j] == pairs[b]);
            assert(name_before(names[a], names[b]));
        }
    }
    let left = pairs_map(grown);
    let right = pairs_map(pairs).insert(name, value);
    assert forall|q: Seq<char>| left.contains_key(q) == right.contains_key(q) by {
        lemma_pairs_map_domain(grown, q);
        lemma_pairs_map_domain(pairs, q);
        if left.contains_key(q) {
            let i = choose|i: int| 0 <= i < grown.len() && (#[trigger] grown[i]).0 == q;
            if i != at {
                let a = if i < at { i } else { i - 1 };
                assert(pairs[a].0 == q);
            }
        }
        if right.contains_key(q) {
            if q == name {
                assert(grown[at].0 == q);
            } else {
                let a = choose|a: int| 0 <= a < pairs.len() && (#[trigger] pairs[a]).0 == q;
                let i = if a < at { a } else { a + 1 };
                assert(grown[i].0 == q);
            }
        }
    }
    assert forall|q: Seq<char>| left.contains_key(q) implies left[q] == right[q] by {
        lemma_pairs_map_domain(grown, q);
        let i = choose|i: int| 0 <= i < grown.len() && (#[trigger] grown[i]).0 == q;
        lemma_pairs_map_ascending(grown, i);
        if i == at {
        } else {
            let a = if i < at { i } else { i - 1 };
            assert(grown[i] == pairs[a]);
            lemma_pairs_map_ascending(pairs, a);
            assert(grown_names[i] == q);
            assert(grown_names[at] == name);
            if i < at {
                assert(name_before(grown_names[i], grown_names[at]));
            } else {
                assert(name_before(grown_names[at], grown_names[i]));
            }
            lemma_name_before_irreflexive(q);
        }
    }
    assert(left =~= right);
}

/// The map of an ascending sequence in which one pair got another value.
pub proof fn lemma_pairs_map_update<V>(pairs: Seq<(Seq<char>, V)>, at: int, value: V)
    requires
        ascending(pair_names(pairs)),
        0 <= at < pairs.len(),
    ensures
        pair_names(pairs.update(at, (pairs[at].0, value))) == pair_names(pairs),
        pairs_map(pairs.update(at, (pairs[at].0, value))) == pairs_map(pairs).insert(
            pairs[at].0,
            value,
        ),
{
    let name = pairs[at].0;
    let changed = pairs.update(at, (name, value));
    assert(pair_names(changed) =~= pair_names(pairs));
    let left = pairs_map(changed);
    let right = pairs_map(pairs).insert(name, value);
    assert forall|q: Seq<char>| left.contains_key(q) == right.contains_key(q) by {
        lemma_pairs_map_domain(changed, q);
        lemma_pairs_map_domain(pairs, q);
        if left.contains_key(q) {
            let i = choose|i: int| 0 <= i < changed.len() && (#[trigger] changed[i]).0 == q;
            assert(pairs[i].0 == q);
        }
        if right.contains_key(q) {
            if q == name {
                assert(changed[at].0 == q);
            } else {
                let a = choose|a: int| 0 <= a < pairs.len() && (#[trigger] pairs[a]).0 == q;
                assert(changed[a].0 == q);
            }
        }
    }
    assert forall|q: Seq<char>| left.contains_key(q) implies left[q] == right[q] by {
        lemma_pairs_map_domain(changed, q);
        let i = choose|i: int| 0 <= i < changed.len() && (#[trigger] changed[i]).0 == q;
        lemma_pairs_map_ascending(changed, i);
        if i != at {
            lemma_pairs_map_ascending(pairs, i);
            if q == name {
                lemma_ascending_distinct(pair_names(pairs), i, at);
            }
        }
    }
    assert(left =~= right);
}

/// Where the names ascend, the map has as many names as there are pairs.
pub proof fn lemma_pairs_map_len<V>(pairs: Seq<(Seq<char>, V)>)
    requires
        ascending(pair_names(pairs)),
    ensures
        pairs_map(pairs).dom().finite(),
        pairs_map(pairs).dom().len() == pairs.len(),
    decreases pairs.len(),
{
    if pairs.len() > 0 {
        let front = pairs.drop_last();
        let names = pair_names(pairs);
        assert forall|i: int, j: int| 0 <= i < j < front.len() implies name_before(
            pair_names(front)[i],
            pair_names(front)[j],
        ) by {
            assert(name_before(names[i], names[j]));
        }
        lemma_pairs_map_len(front);
        lemma_pairs_map_domain(front, pairs.last().0);
        if pairs_map(front).contains_key(pairs.last().0) {
            let i = choose|i: int|
                0 <= i < front.len() && (#[trigger] front[i]).0 == pairs.last().0;
            assert(name_before(names[i], names[pairs.len() - 1]));
            lemma_name_before_irreflexive(names[i]);
        }
    }
}

/// The map of an ascending sequence from which one pair was taken out.
pub proof fn lemma_pairs_map_remove<V>(pairs: Seq<(Seq<char>, V)>, at: int)
    requires
        ascending(pair_names(pairs)),
        0 <= at < pairs.len(),
    ensures
        ascending(pair_names(pairs.remove(at))),
        pairs_map(pairs.remove(at)) == pairs_map(pairs).remove(pairs[at].0),
{
    let name = pairs[at].0;
    let rest = pairs.remove(at);
    let names = pair_names(pairs);
    let rest_names = pair_names(rest);
    assert forall|i: int, j: int| 0 <= i < j < rest_names.len() implies name_before(
        rest_names[i],
        rest_names[j],
    ) by {
        let a = if i < at { i } else { i + 1 };
        let b = if j < at { j } else { j + 1 };
        assert(rest[i] == pairs[a]);
        assert(rest[j] == pairs[b]);
        assert(name_before(names[a], names[b]));
    }
    let left = pairs_map(rest);
    let right = pairs_map(pairs).remove(name);
    assert forall|q: Seq<char>| left.contains_key(q) == right.contains_key(q) by {
        lemma_pairs_map_domain(rest, q);
        lemma_pairs_map_domain(pairs, q);
        if left.contains_key(q) {
            let i = choose|i: int| 0 <= i < rest.len() && (#[trigger] rest[i]).0 == q;
            let a = if i < at { i } else { i + 1 };
            assert(rest[i] == pairs[a]);
            assert(pairs[a].0 == q);
            if q == name {
                lemma_ascending_distinct(names, a, at);
            }
        }
        if right.contains_key(q) {
            let a = choose|a: int| 0 <= a < pairs.len() && (#[trigger] pairs[a]).0 == q;
            let i = if a < at { a } else { a - 1 };
            assert(rest[i] == pairs[a]);
            assert(rest[i].0 == q);
        }
    }
    assert forall|q: Seq<char>| left.contains_key(q) implies left[q] == right[q] by {
        lemma_pairs_map_domain(rest, q);
        let i = choose|i: int| 0 <= i < rest.len() && (#[trigger] rest[i]).0 == q;
        let a = if i < at { i } else { i + 1 };
        assert(rest[i] == pairs[a]);
        lemma_pairs_map_ascending(rest, i);
        lemma_pairs_map_ascending(pairs, a);
    }
    assert(left =~= right);
}

/// The pairs that stored entries stand for: each name by its characters.
pub open spec fn stored_pairs<V>(entries: Seq<(String, V)>) -> Seq<(Seq<char>, V)> {
    Seq::new(entries.len(), |i: int| (entries[i].0@, entries[i].1))
}

/// A map keyed by names. Its entries are kept in the order of names, so that
/// no name occurs twice and a name is found by bisection.
#[derive(Debug, PartialEq, Eq)]
pub struct NameMap<V> {
    entries: Vec<(String, V)>,
}

impl<V> Default for NameMap<V> {
    /// The empty map.
    fn default() -> (m: Self)
        ensures
            m.pairs() == Seq::<(Seq<char>, V)>::empty(),
            m@ == Map::<Seq<char>, V>::empty(),
            m.wf(),
    {
        NameMap::new()
    }
}

impl<V: Clone> Clone for NameMap<V> {
    /// A map with the same names, each with a clone of its value.
    fn clone(&self) -> (m: Self)
        ensures
            pair_names(m.pairs()) == pair_names(self.pairs()),
            forall|i: int|
                0 <= i < self.pairs().len() ==> cloned::<V>(
                    (#[trigger] self.pairs()[i]).1,
                    m.pairs()[i].1,
                ),
    {
        proof {
            use_type_invariant(self);
        }
        let mut entries: Vec<(String, V)> = Vec::new();
        let mut i: usize = 0;
        while i < self.entries.len()
            invariant
                i <= self.entries@.len(),
                entries@.len() == i,
                forall|j: int| 0 <= j < i ==> (#[trigger] entries@[j]).0@ == self.entries@[j].0@,
                forall|j: int|
                    0 <= j < i ==> cloned::<V>((#[trigger] self.entries@[j]).1, entries@[j].1),
            decreases self.entries@.len() - i,
        {
            let name = self.entries[i].0.clone();
            let value = self.entries[i].1.clone();
            entries.push((name, value));
            i = i + 1;
        }
        proof {
            assert(pair_names(stored_pairs(entries@)) =~= pair_names(self.pairs()));
            assert forall|i: int| 0 <= i < self.pairs().len() implies cloned::<V>(
                (#[trigger] self.pairs()[i]).1,
                stored_pairs(entries@)[i].1,
            ) by {
                assert(cloned::<V>(self.entries@[i].1, entries@[i].1));
            }
        }
        NameMap { entries }
    }
}

impl<V> View for NameMap<V> {
    type V = Map<Seq<char>, V>;

    /// The map as a mathematical map from names to values.
    open spec fn view(&self) -> Map<Seq<char>, V> {
        pairs_map(self.pairs())
    }
}

impl<V> NameMap<V> {
    /// The entries in the order in which the map keeps them.
    pub closed spec fn pairs(&self) -> Seq<(Seq<char>, V)> {
        stored_pairs(self.entries@)
    }

    /// The names ascend: what every map of this type satisfies.
    pub open spec fn wf(&self) -> bool {
        ascending(pair_names(self.pairs()))
    }

    #[verifier::type_invariant]
    spec fn ordered(&self) -> bool {
        self.wf()
    }

    /// An empty map.
    pub fn new() -> (m: Self)
        ensures
            m.pairs() == Seq::<(Seq<char>, V)>::empty(),
            m@ == Map::<Seq<char>, V>::empty(),
            m.wf(),
    {
        let m = NameMap { entries: Vec::new() };
        proof {
            assert(m.pairs() =~= Seq::<(Seq<char>, V)>::empty());
        }
        m
    }

    /// The number of entries. As in every map of this type, the names ascend.
    pub fn len(&self) -> (n: usize)
        ensures
            n == self.pairs().len(),
            n == self@.dom().len(),
            self@.dom().finite(),
            self.wf(),
    {
        proof {
            use_type_invariant(self);
            lemma_pairs_map_len(self.pairs());
        }
        self.entries.len()
    }

    /// Whether the map has no entry.
    pub fn is_empty(&self) -> (b: bool)
        ensures
            b == (self.pairs().len() == 0),
            b == (self@ == Map::<Seq<char>, V>::empty()),
    {
        proof {
            use_type_invariant(self);
            lemma_pairs_map_len(self.pairs());
            if self.pairs().len() == 0 {
                assert(self@ =~= Map::<Seq<char>, V>::empty());
            }
        }
        self.entries.len() == 0
    }

    /// The name of the entry at position `i` in the order of names.
    pub fn name_at(&self, i: usize) -> (name: &String)
        requires
            i < self.pairs().len(),
        ensures
            name@ == self.pairs()[i as int].0,
    {
        &self.entries[i].0
    }

    /// The value of the entry at position `i` in the order of names.
    pub fn value_at(&self, i: usize) -> (value: &V)
        requires
            i < self.pairs().len(),
        ensures
            *value == self.pairs()[i as int].1,
    {
        &self.entries[i].1
    }

    /// Bisects for `name`. Returns whether it was found, and the position at
    /// which it stands or would have to stand.
    fn search(&self, name: &str) -> (r: (bool, usize))
        ensures
            r.1 <= self.pairs().len(),
            r.0 ==> r.1 < self.pairs().len() && self.pairs()[r.1 as int].0 == name@,
            forall|j: int| 0 <= j < r.1 ==> name_before((#[trigger] self.pairs()[j]).0, name@),
            forall|j: int|
                r.1 <= j < self.pairs().len() && !(r.0 && j == r.1) ==> name_before(
                    name@,
                    (#[trigger] self.pairs()[j]).0,
                ),
    {
        proof {
            use_type_invariant(self);
        }
        let ghost names = pair_names(self.pairs());
        let mut lo: usize = 0;
        let mut hi: usize = self.entries.len();
        while lo < hi
            invariant
                self.wf(),
                names == pair_names(self.pairs()),
                lo <= hi <= self.entries@.len(),
                self.entries@.len() == self.pairs().len(),
                forall|j: int| 0 <= j < lo ==> name_before((#[trigger] self.pairs()[j]).0, name@),
                forall|j: int|
                    hi <= j < self.pairs().len() ==> name_before(
                        name@,
                        (#[trigger] self.pairs()[j]).0,
                    ),
            decreases hi - lo,
        {
            let mid: usize = lo + (hi - lo) / 2;
            let here = &self.entries[mid].0;
            assert(here@ == self.pairs()[mid as int].0);
            match place(here.as_str(), name) {
                Placement::Before => {
                    assert forall|j: int| 0 <= j < mid + 1 implies name_before(
                        (#[trigger] self.pairs()[j]).0,
                        name@,
                    ) by {
                        if j < mid {
                            assert(name_before(names[j], names[mid as int]));
                            lemma_name_before_transitive(names[j], names[mid as int], name@);
                        }
                    }
                    lo = mid + 1;
                },
                Placement::After => {
                    assert forall|j: int| mid <= j < self.pairs().len() implies name_before(
                        name@,
                        (#[trigger] self.pairs()[j]).0,
                    ) by {
                        if j > mid {
                            assert(name_before(names[mid as int], names[j]));
                            lemma_name_before_transitive(name@, names[mid as int], names[j]);
                        }
                    }
                    hi = mid;
                },
                Placement::Same => {
                    assert forall|j: int| 0 <= j < mid implies name_before(
                        (#[trigger] self.pairs()[j]).0,
                        name@,
                    ) by {
                        assert(name_before(names[j], names[mid as int]));
                    }
                    assert forall|j: int|
                        mid <= j < self.pairs().len() && j != mid implies name_before(
                        name@,
                        (#[trigger] self.pairs()[j]).0,
                    ) by {
                        assert(name_before(names[mid as int], names[j]));
                    }
                    return (true, mid);
                },
            }
        }
        (false, lo)
    }

    /// Looks a name up.
    pub fn get(&self, name: &str) -> (r: Option<&V>)
        ensures
            match r {
                Some(value) => self@.contains_key(name@) && self@[name@] == *value,
                None => !self@.contains_key(name@),
            },
    {
        proof {
            use_type_invariant(self);
        }
        let (found, at) = self.search(name);
        if found {
            proof {
                lemma_pairs_map_ascending(self.pairs(), at as int);
            }
            Some(&self.entries[at].1)
        } else {
            proof {
                lemma_pairs_map_domain(self.pairs(), name@);
                if self@.contains_key(name@) {
                    let i = choose|i: int|
                        0 <= i < self.pairs().len() && (#[trigger] self.pairs()[i]).0 == name@;
                    lemma_name_before_irreflexive(name@);
                }
            }
            None
        }
    }

    /// Whether the map has an entry for a name.
    pub fn contains_key(&self, name: &str) -> (b: bool)
        ensures
            b == self@.contains_key(name@),
    {
        self.get(name).is_some()
    }

    /// Gives `name` the value `value`. Returns the value that the name had
    /// before, if it had one.
    pub fn insert(&mut self, name: String, value: V) -> (previous: Option<V>)
        ensures
            final(self)@ == old(self)@.insert(name@, value),
            previous == pairs_get(old(self).pairs(), name@),
            final(self).wf(),
    {
        proof {
            use_type_invariant(&*self);
        }
        let (found, at) = self.search(name.as_str());
        let ghost before = self.pairs();
        let mut entries: Vec<(String, V)> = Vec::new();
        proof {
            assert(pair_names(stored_pairs(entries@)) =~= Seq::<Seq<char>>::empty());
        }
        std::mem::swap(&mut self.entries, &mut entries);
        if found {
            proof {
                lemma_pairs_map_ascending(before, at as int);
                lemma_pairs_map_update(before, at as int, value);
                assert(stored_pairs(entries@.update(at as int, (name, value))) =~= before.update(
                    at as int,
                    (name@, value),
                ));
            }
            entries.push((name, value));
            let replaced = entries.swap_remove(at);
            proof {
                assert(entries@ =~= old(self).entries@.update(at as int, (name, value)));
            }
            std::mem::swap(&mut self.entries, &mut entries);
            Some(replaced.1)
        } else {
            proof {
                lemma_pairs_map_domain(before, name@);
                if pairs_map(before).contains_key(name@) {
                    let i = choose|i: int|
                        0 <= i < before.len() && (#[trigger] before[i]).0 == name@;
                    lemma_name_before_irreflexive(name@);
                }
                lemma_pairs_map_insert_new(before, at as int, name@, value);
                assert(stored_pairs(entries@.insert(at as int, (name, value))) =~= before.insert(
                    at as int,
                    (name@, value),
                ));
            }
            entries.insert(at, (name, value));
            std::mem::swap(&mut self.entries, &mut entries);
            None
        }
    }
    /// Takes the entry of `name` out of the map. Returns the value that the
    /// name had, if it had one.
    pub fn remove(&mut self, name: &str) -> (previous: Option<V>)
        ensures
            final(self)@ == old(self)@.remove(name@),
            previous == pairs_get(old(self).pairs(), name@),
            final(self).wf(),
    {
        proof {
            use_type_invariant(&*self);
        }
        let (found, at) = self.search(name);
        let ghost before = self.pairs();
        if found {
            let mut entries: Vec<(String, V)> = Vec::new();
            proof {
                assert(pair_names(stored_pairs(entries@)) =~= Seq::<Seq<char>>::empty());
                lemma_pairs_map_ascending(before, at as int);
                lemma_pairs_map_remove(before, at as int);
            }
            std::mem::swap(&mut self.entries, &mut entries);
            let taken = entries.remove(at);
            proof {
                assert(stored_pairs(entries@) =~= before.remove(at as int));
            }
            std::mem::swap(&mut self.entries, &mut entries);
            Some(taken.1)
        } else {
            proof {
                lemma_pairs_map_domain(before, name@);
                if pairs_map(before).contains_key(name@) {
                    let i = choose|i: int|
                        0 <= i < before.len() && (#[trigger] before[i]).0 == name@;
                    lemma_name_before_irreflexive(name@);
                }
                assert(self@.remove(name@) =~= self@);
            }
            None
        }
    }
}

} // verus!
