//! Reading and writing JSON objects: maps from names to values, and the
//! members of records.

use crate::codec::Codec;
use crate::error::{NetlistError, NetlistErrorView, Step, StepView};
use crate::json::{count_members, member, member_views, Json, JsonView, Shape};
use crate::name_map::{
    lemma_pairs_map_ascending, lemma_pairs_map_domain, occurrences, pair_names, pairs_get,
    pairs_map, NameMap,
};
use crate::name_order::{lemma_ascending_is_distinct, lemma_ascending_unique};
use vstd::prelude::*;

verus! {

/// What reading a member of a record that must be there gives. A record
/// that has the member more than once is refused.
pub open spec fn required_field<T: Codec>(
    members: Seq<(Seq<char>, JsonView)>,
    name: Seq<char>,
) -> Result<T::Model, NetlistErrorView> {
    if occurrences(members, name) > 1 {
        Err(NetlistErrorView::misfit(Shape::Repeated).within(StepView::Key(name)))
    } else {
        match pairs_get(members, name) {
            None => Err(NetlistErrorView::misfit(Shape::Absent).within(StepView::Key(name))),
            Some(tree) => match T::decoded(tree) {
                Ok(model) => Ok(model),
                Err(e) => Err(e.within(StepView::Key(name))),
            },
        }
    }
}

/// What reading a member of a record that may be left out gives. A record
/// that has the member more than once is refused.
pub open spec fn optional_field<T: Codec>(
    members: Seq<(Seq<char>, JsonView)>,
    name: Seq<char>,
) -> Result<Option<T::Model>, NetlistErrorView> {
    if occurrences(members, name) > 1 {
        Err(NetlistErrorView::misfit(Shape::Repeated).within(StepView::Key(name)))
    } else {
        match pairs_get(members, name) {
            None => Ok(None),
            Some(tree) => match T::decoded(tree) {
                Ok(model) => Ok(Some(model)),
                Err(e) => Err(e.within(StepView::Key(name))),
            },
        }
    }
}

/// Reads the member `name` of a record, which must be there.
pub fn required<T: Codec>(members: &Vec<(String, Json)>, name: &str) -> (r: Result<
    T,
    NetlistError,
>)
    ensures
        match r {
            Ok(value) => value.valid() && required_field::<T>(member_views(members@), name@)
                == Ok::<T::Model, NetlistErrorView>(value.model()),
            Err(e) => required_field::<T>(member_views(members@), name@) == Err::<
                T::Model,
                NetlistErrorView,
            >(e@),
        },
{
    if count_members(members, name) > 1 {
        return Err(NetlistError::misfit(Shape::Repeated).within(Step::Key(name.to_owned())));
    }
    match member(members, name) {
        None => Err(NetlistError::misfit(Shape::Absent).within(Step::Key(name.to_owned()))),
        Some(tree) => match T::from_json(tree) {
            Ok(value) => Ok(value),
            Err(e) => Err(e.within(Step::Key(name.to_owned()))),
        },
    }
}

/// Reads the member `name` of a record, if it is there.
pub fn optional<T: Codec>(members: &Vec<(String, Json)>, name: &str) -> (r: Result<
    Option<T>,
    NetlistError,
>)
    ensures
        match r {
            Ok(Some(value)) => value.valid() && optional_field::<T>(member_views(members@), name@)
                == Ok::<Option<T::Model>, NetlistErrorView>(Some(value.model())),
            Ok(None) => optional_field::<T>(member_views(members@), name@) == Ok::<
                Option<T::Model>,
                NetlistErrorView,
            >(None),
            Err(e) => optional_field::<T>(member_views(members@), name@) == Err::<
                Option<T::Model>,
                NetlistErrorView,
            >(e@),
        },
{
    if count_members(members, name) > 1 {
        return Err(NetlistError::misfit(Shape::Repeated).within(Step::Key(name.to_owned())));
    }
    match member(members, name) {
        None => Ok(None),
        Some(tree) => match T::from_json(tree) {
            Ok(value) => Ok(Some(value)),
            Err(e) => Err(e.within(Step::Key(name.to_owned()))),
        },
    }
}

/// What reading the members of an object as a map gives: each name with the
/// model of its value, a later member replacing an earlier one of the same
/// name; or the error of the first member that cannot be read, with its name.
pub open spec fn decoded_members<V: Codec>(members: Seq<(Seq<char>, JsonView)>) -> Result<
    Map<Seq<char>, V::Model>,
    NetlistErrorView,
>
    decreases members.len(),
{
    if members.len() == 0 {
        Ok(Map::empty())
    } else {
        match decoded_members::<V>(members.drop_last()) {
            Err(e) => Err(e),
            Ok(front) => match V::decoded(members.last().1) {
                Err(e) => Err(e.within(StepView::Key(members.last().0))),
                Ok(model) => Ok(front.insert(members.last().0, model)),
            },
        }
    }
}

/// An object cannot be read if its first `n` members cannot.
pub proof fn lemma_decoded_members_stops<V: Codec>(members: Seq<(Seq<char>, JsonView)>, n: int)
    requires
        0 <= n <= members.len(),
        decoded_members::<V>(members.take(n)) is Err,
    ensures
        decoded_members::<V>(members) == decoded_members::<V>(members.take(n)),
    decreases members.len() - n,
{
    if n < members.len() {
        assert(members.take(n + 1).drop_last() =~= members.take(n));
        lemma_decoded_members_stops::<V>(members, n + 1);
    } else {
        assert(members.take(n) =~= members);
    }
}

/// The models of the values of a map.
pub open spec fn value_models<V: Codec>(map: Map<Seq<char>, V>) -> Map<Seq<char>, V::Model> {
    map.map_values(|value: V| value.model())
}

/// The members as which the pairs of a map are written.
pub open spec fn encoded_pairs<V: Codec>(pairs: Seq<(Seq<char>, V)>) -> Seq<
    (Seq<char>, JsonView),
> {
    Seq::new(pairs.len(), |i: int| (pairs[i].0, pairs[i].1.encoded()))
}

/// Reading the first `n` of the members written for valid values gives the
/// map of the first `n` pairs.
pub proof fn lemma_members_round_trip<V: Codec>(pairs: Seq<(Seq<char>, V)>, n: int)
    requires
        0 <= n <= pairs.len(),
        forall|i: int| 0 <= i < pairs.len() ==> (#[trigger] pairs[i]).1.valid(),
    ensures
        decoded_members::<V>(encoded_pairs(pairs).take(n)) == Ok::<
            Map<Seq<char>, V::Model>,
            NetlistErrorView,
        >(value_models(pairs_map(pairs.take(n)))),
    decreases n,
{
    let members = encoded_pairs(pairs).take(n);
    if n == 0 {
        assert(value_models(pairs_map(pairs.take(0))) =~= Map::<Seq<char>, V::Model>::empty());
    } else {
        lemma_members_round_trip(pairs, n - 1);
        assert(members.drop_last() =~= encoded_pairs(pairs).take(n - 1));
        assert(pairs.take(n).drop_last() =~= pairs.take(n - 1));
        pairs[n - 1].1.lemma_round_trip();
        let front = pairs_map(pairs.take(n - 1));
        assert(value_models(front).insert(pairs[n - 1].0, pairs[n - 1].1.model()) =~= value_models(
            front.insert(pairs[n - 1].0, pairs[n - 1].1),
        ));
    }
}

impl<V: Codec> Codec for NameMap<V> {
    type Model = Map<Seq<char>, V::Model>;

    open spec fn model(&self) -> Map<Seq<char>, V::Model> {
        value_models(self@)
    }

    open spec fn valid(&self) -> bool {
        &&& self.wf()
        &&& forall|name: Seq<char>| self@.contains_key(name) ==> (#[trigger] self@[name]).valid()
    }

    open spec fn decoded(tree: JsonView) -> Result<Map<Seq<char>, V::Model>, NetlistErrorView> {
        match tree {
            JsonView::Object(members) => decoded_members::<V>(members),
            other => Err(NetlistErrorView::misfit(other.shape())),
        }
    }

    open spec fn encoded(&self) -> JsonView {
        JsonView::Object(encoded_pairs(self.pairs()))
    }

    fn from_json(tree: &Json) -> (r: Result<NameMap<V>, NetlistError>) {
        match tree {
            Json::Object(members) => {
                let ghost trees = member_views(members@);
                let mut map: NameMap<V> = NameMap::new();
                let mut i: usize = 0;
                proof {
                    assert(value_models(map@) =~= Map::<Seq<char>, V::Model>::empty());
                    assert(trees.take(0) =~= Seq::<(Seq<char>, JsonView)>::empty());
                }
                while i < members.len()
                    invariant
                        i <= members@.len(),
                        trees == member_views(members@),
                        tree@ == JsonView::Object(trees),
                        map.wf(),
                        forall|name: Seq<char>|
                            map@.contains_key(name) ==> (#[trigger] map@[name]).valid(),
                        decoded_members::<V>(trees.take(i as int)) == Ok::<
                            Map<Seq<char>, V::Model>,
                            NetlistErrorView,
                        >(value_models(map@)),
                    decreases members@.len() - i,
                {
                    let ghost front = map@;
                    proof {
                        assert(trees.take(i + 1).drop_last() =~= trees.take(i as int));
                        assert(trees.take(i + 1).last() == (
                            members@[i as int].0@,
                            members@[i as int].1@,
                        ));
                        assert(trees.take(i + 1).len() == i + 1);
                    }
                    match V::from_json(&members[i].1) {
                        Ok(value) => {
                            let name = members[i].0.clone();
                            map.insert(name, value);
                            proof {
                                assert(value_models(map@) =~= value_models(front).insert(
                                    name@,
                                    value.model(),
                                ));
                            }
                        },
                        Err(e) => {
                            let name = members[i].0.clone();
                            proof {
                                assert(decoded_members::<V>(trees.take(i + 1)) == Err::<
                                    Map<Seq<char>, V::Model>,
                                    NetlistErrorView,
                                >(e@.within(StepView::Key(name@))));
                                lemma_decoded_members_stops::<V>(trees, i + 1);
                            }
                            return Err(e.within(Step::Key(name)));
                        },
                    }
                    i = i + 1;
                }
                proof {
                    assert(trees.take(i as int) =~= trees);
                }
                Ok(map)
            },
            other => Err(NetlistError::misfit(other.shape())),
        }
    }

    fn to_json(&self) -> (tree: Json) {
        let mut members: Vec<(String, Json)> = Vec::new();
        let n: usize = self.len();
        let mut i: usize = 0;
        while i < n
            invariant
                i <= n,
                n == self.pairs().len(),
                members@.len() == i,
                forall|j: int|
                    0 <= j < i ==> (#[trigger] members@[j]).0@ == self.pairs()[j].0
                        && members@[j].1@ == self.pairs()[j].1.encoded(),
                forall|j: int| 0 <= j < i ==> (#[trigger] members@[j]).1@.canonical(),
            decreases n - i,
        {
            let name = self.name_at(i).clone();
            let written = self.value_at(i).to_json();
            members.push((name, written));
            i = i + 1;
        }
        proof {
            assert(member_views(members@) =~= encoded_pairs(self.pairs()));
            assert(pair_names(encoded_pairs(self.pairs())) =~= pair_names(self.pairs()));
            lemma_ascending_is_distinct(pair_names(self.pairs()));
        }
        Json::Object(members)
    }

    proof fn lemma_round_trip(&self) {
        let pairs = self.pairs();
        assert forall|i: int| 0 <= i < pairs.len() implies (#[trigger] pairs[i]).1.valid() by {
            lemma_pairs_map_ascending(pairs, i);
            assert(self@[pairs[i].0].valid());
        }
        lemma_members_round_trip(pairs, pairs.len() as int);
        assert(encoded_pairs(pairs).take(pairs.len() as int) =~= encoded_pairs(pairs));
        assert(pairs.take(pairs.len() as int) =~= pairs);
        assert(pair_names(encoded_pairs(pairs)) =~= pair_names(pairs));
        lemma_ascending_is_distinct(pair_names(pairs));
        assert forall|i: int| 0 <= i < pairs.len() implies (#[trigger] encoded_pairs(
            pairs,
        )[i]).1.canonical() by {
            pairs[i].1.lemma_round_trip();
        }
    }

    proof fn lemma_encoded_by_model(&self, other: &Self) {
        let a = self.pairs();
        let b = other.pairs();
        assert forall|name: Seq<char>| pair_names(a).contains(name) <==> pair_names(b).contains(
            name,
        ) by {
            lemma_pairs_map_domain(a, name);
            lemma_pairs_map_domain(b, name);
            assert(self@.contains_key(name) == self.model().contains_key(name));
            assert(other@.contains_key(name) == other.model().contains_key(name));
            if pair_names(a).contains(name) {
                let i = choose|i: int| 0 <= i < a.len() && pair_names(a)[i] == name;
                assert(a[i].0 == name);
                let j = choose|j: int| 0 <= j < b.len() && (#[trigger] b[j]).0 == name;
                assert(pair_names(b)[j] == name);
            }
            if pair_names(b).contains(name) {
                let i = choose|i: int| 0 <= i < b.len() && pair_names(b)[i] == name;
                assert(b[i].0 == name);
                let j = choose|j: int| 0 <= j < a.len() && (#[trigger] a[j]).0 == name;
                assert(pair_names(a)[j] == name);
            }
        }
        lemma_ascending_unique(pair_names(a), pair_names(b));
        assert(a.len() == pair_names(a).len());
        assert(b.len() == pair_names(b).len());
        assert forall|i: int| 0 <= i < a.len() implies (#[trigger] encoded_pairs(a)[i])
            == encoded_pairs(b)[i] by {
            assert(pair_names(a)[i] == pair_names(b)[i]);
            let name = a[i].0;
            lemma_pairs_map_ascending(a, i);
            lemma_pairs_map_ascending(b, i);
            assert(self@[name].valid());
            assert(other@[name].valid());
            assert(self.model()[name] == a[i].1.model());
            assert(other.model()[name] == b[i].1.model());
            a[i].1.lemma_encoded_by_model(&b[i].1);
        }
        assert(encoded_pairs(a) =~= encoded_pairs(b));
    }
}

/// What reading a count that may be left out gives: zero where it is.
pub open spec fn count_field(members: Seq<(Seq<char>, JsonView)>, name: Seq<char>) -> Result<
    usize,
    NetlistErrorView,
> {
    match optional_field::<usize>(members, name) {
        Ok(Some(n)) => Ok(n),
        Ok(None) => Ok(0),
        Err(e) => Err(e),
    }
}

/// What reading a text that may be left out gives: the empty text where it
/// is.
pub open spec fn text_field(members: Seq<(Seq<char>, JsonView)>, name: Seq<char>) -> Result<
    Seq<char>,
    NetlistErrorView,
> {
    match optional_field::<String>(members, name) {
        Ok(Some(text)) => Ok(text),
        Ok(None) => Ok(Seq::empty()),
        Err(e) => Err(e),
    }
}

/// What reading a map that may be left out gives: the empty map where it is.
pub open spec fn map_field<V: Codec>(
    members: Seq<(Seq<char>, JsonView)>,
    name: Seq<char>,
) -> Result<Map<Seq<char>, V::Model>, NetlistErrorView> {
    match optional_field::<NameMap<V>>(members, name) {
        Ok(Some(map)) => Ok(map),
        Ok(None) => Ok(Map::empty()),
        Err(e) => Err(e),
    }
}

/// Reads the count `name` of a record, zero if it is left out.
pub fn read_count(members: &Vec<(String, Json)>, name: &str) -> (r: Result<usize, NetlistError>)
    ensures
        match r {
            Ok(n) => count_field(member_views(members@), name@) == Ok::<usize, NetlistErrorView>(n),
            Err(e) => count_field(member_views(members@), name@) == Err::<
                usize,
                NetlistErrorView,
            >(e@),
        },
{
    match optional::<usize>(members, name) {
        Ok(Some(n)) => Ok(n),
        Ok(None) => Ok(0),
        Err(e) => Err(e),
    }
}

/// Reads the text `name` of a record, the empty text if it is left out.
pub fn read_text(members: &Vec<(String, Json)>, name: &str) -> (r: Result<String, NetlistError>)
    ensures
        match r {
            Ok(t) => text_field(member_views(members@), name@) == Ok::<
                Seq<char>,
                NetlistErrorView,
            >(t@),
            Err(e) => text_field(member_views(members@), name@) == Err::<
                Seq<char>,
                NetlistErrorView,
            >(e@),
        },
{
    match optional::<String>(members, name) {
        Ok(Some(t)) => Ok(t),
        Ok(None) => Ok(String::new()),
        Err(e) => Err(e),
    }
}

/// Reads the map `name` of a record, the empty map if it is left out.
pub fn read_map<V: Codec>(members: &Vec<(String, Json)>, name: &str) -> (r: Result<
    NameMap<V>,
    NetlistError,
>)
    ensures
        match r {
            Ok(m) => m.valid() && map_field::<V>(member_views(members@), name@) == Ok::<
                Map<Seq<char>, V::Model>,
                NetlistErrorView,
            >(m.model()),
            Err(e) => map_field::<V>(member_views(members@), name@) == Err::<
                Map<Seq<char>, V::Model>,
                NetlistErrorView,
            >(e@),
        },
{
    match optional::<NameMap<V>>(members, name) {
        Ok(Some(m)) => Ok(m),
        Ok(None) => {
            let m: NameMap<V> = NameMap::new();
            proof {
                assert(value_models(m@) =~= Map::<Seq<char>, V::Model>::empty());
            }
            Ok(m)
        },
        Err(e) => Err(e),
    }
}

} // verus!
