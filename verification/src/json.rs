//! JSON documents as trees of plain values.

use crate::name_map::{
    lemma_pairs_map_domain, lemma_pairs_map_last, occurrences, pair_names, pairs_get,
};
use crate::error::{NetlistError, NetlistErrorView};
use crate::name_order::{distinct, same_name};
use vstd::prelude::*;

verus! {

/// The kind of a JSON value, or the absence of one.
#[derive(Clone, Copy, Debug, PartialEq, Eq, Hash)]
pub enum Shape {
    /// No value: the key is not in the object.
    Absent,
    /// More than one value: the key is in the object more than once.
    Repeated,
    Null,
    Bool,
    Number,
    String,
    Array,
    Object,
}

/// A JSON number, held without floating point: its value as an unsigned
/// 64-bit integer, where it has one, and the bits of its value as an IEEE 754
/// double, where those are known.
#[derive(Clone, Copy, Debug, PartialEq, Eq)]
pub struct JsonNumber {
    pub unsigned: Option<u64>,
    pub double: Option<u64>,
}

/// The mathematical model of a [`JsonNumber`]: an unsigned integer, or else
/// a double by its bits, or else a number of which nothing is known.
pub enum NumberView {
    Unsigned(u64),
    Double(u64),
    Unknown,
}

/// The bits of the double 2^64, the least number beyond the unsigned 64-bit
/// integers.
pub const DOUBLE_TWO_POW_64: u64 = 0x43F0_0000_0000_0000;

/// The bits of the double -0, the least bit pattern with the sign set.
pub const DOUBLE_SIGN: u64 = 0x8000_0000_0000_0000;

impl View for JsonNumber {
    type V = NumberView;

    open spec fn view(&self) -> NumberView {
        match self.unsigned {
            Some(n) => NumberView::Unsigned(n),
            None => match self.double {
                Some(bits) => NumberView::Double(bits),
                None => NumberView::Unknown,
            },
        }
    }
}

impl NumberView {
    /// The number as a count: an unsigned integer that fits the machine. A
    /// larger integer, and a double of 2^64 or more, is an overflow; any
    /// other number is no count at all.
    pub open spec fn count(self) -> Result<usize, NetlistErrorView> {
        match self {
            NumberView::Unsigned(n) => if n <= usize::MAX {
                Ok(n as usize)
            } else {
                Err(NetlistErrorView::overflow())
            },
            NumberView::Double(bits) => if DOUBLE_TWO_POW_64 <= bits < DOUBLE_SIGN {
                Err(NetlistErrorView::overflow())
            } else {
                Err(NetlistErrorView::misfit(Shape::Number))
            },
            NumberView::Unknown => Err(NetlistErrorView::misfit(Shape::Number)),
        }
    }
}

impl JsonNumber {
    /// The number with this value.
    pub fn unsigned(n: u64) -> (number: JsonNumber)
        ensures
            number@ == NumberView::Unsigned(n),
    {
        JsonNumber { unsigned: Some(n), double: None }
    }

    /// Reads the number as a count.
    pub fn to_count(&self) -> (r: Result<usize, NetlistError>)
        ensures
            match r {
                Ok(n) => self@.count() == Ok::<usize, NetlistErrorView>(n),
                Err(e) => self@.count() == Err::<usize, NetlistErrorView>(e@),
            },
    {
        match self.unsigned {
            Some(n) => {
                if n <= usize::MAX as u64 {
                    Ok(n as usize)
                } else {
                    Err(NetlistError::overflow())
                }
            },
            None => match self.double {
                Some(bits) => {
                    if DOUBLE_TWO_POW_64 <= bits && bits < DOUBLE_SIGN {
                        Err(NetlistError::overflow())
                    } else {
                        Err(NetlistError::misfit(Shape::Number))
                    }
                },
                None => Err(NetlistError::misfit(Shape::Number)),
            },
        }
    }
}

/// A JSON value. An object keeps its members in the order in which they
/// were given.
#[derive(Debug, PartialEq, Eq)]
pub enum Json {
    Null,
    Bool(bool),
    Number(JsonNumber),
    String(String),
    Array(Vec<Json>),
    Object(Vec<(String, Json)>),
}

/// The mathematical model of a [`Json`] value.
pub enum JsonView {
    Null,
    Bool(bool),
    Number(NumberView),
    String(Seq<char>),
    Array(Seq<JsonView>),
    Object(Seq<(Seq<char>, JsonView)>),
}

/// The members of an object as pairs of models.
pub open spec fn member_views(members: Seq<(String, Json)>) -> Seq<(Seq<char>, JsonView)>
    decreases members,
{
    Seq::new(
        members.len(),
        |i: int|
            if 0 <= i < members.len() {
                (members[i].0@, members[i].1.view())
            } else {
                (Seq::empty(), JsonView::Null)
            },
    )
}

/// The items of an array as models.
pub open spec fn item_views(items: Seq<Json>) -> Seq<JsonView>
    decreases items,
{
    Seq::new(
        items.len(),
        |i: int|
            if 0 <= i < items.len() {
                items[i].view()
            } else {
                JsonView::Null
            },
    )
}

impl View for Json {
    type V = JsonView;

    open spec fn view(&self) -> JsonView
        decreases self,
    {
        match self {
            Json::Null => JsonView::Null,
            Json::Bool(b) => JsonView::Bool(*b),
            Json::Number(n) => JsonView::Number(n@),
            Json::String(s) => JsonView::String(s@),
            Json::Array(items) => JsonView::Array(item_views(items@)),
            Json::Object(members) => JsonView::Object(member_views(members@)),
        }
    }
}

impl JsonView {
    /// The kind of this value.
    pub open spec fn shape(self) -> Shape {
        match self {
            JsonView::Null => Shape::Null,
            JsonView::Bool(_) => Shape::Bool,
            JsonView::Number(_) => Shape::Number,
            JsonView::String(_) => Shape::String,
            JsonView::Array(_) => Shape::Array,
            JsonView::Object(_) => Shape::Object,
        }
    }

    /// The form in which values are written out: every number is an unsigned
    /// integer, and no object has two members of one name.
    pub open spec fn canonical(self) -> bool
        decreases self,
    {
        match self {
            JsonView::Number(n) => n is Unsigned,
            JsonView::Array(items) => forall|i: int|
                0 <= i < items.len() ==> (#[trigger] items[i]).canonical(),
            JsonView::Object(members) => distinct(pair_names(members)) && forall|i: int|
                0 <= i < members.len() ==> (#[trigger] members[i]).1.canonical(),
            _ => true,
        }
    }
}

impl Json {
    /// The kind of this value.
    pub fn shape(&self) -> (s: Shape)
        ensures
            s == self@.shape(),
    {
        match self {
            Json::Null => Shape::Null,
            Json::Bool(_) => Shape::Bool,
            Json::Number(_) => Shape::Number,
            Json::String(_) => Shape::String,
            Json::Array(_) => Shape::Array,
            Json::Object(_) => Shape::Object,
        }
    }
}

/// The value that the members of an object give to a name: that of the last
/// member that carries the name.
pub fn member<'a>(members: &'a Vec<(String, Json)>, name: &str) -> (r: Option<&'a Json>)
    ensures
        match r {
            Some(tree) => pairs_get(member_views(members@), name@) == Some(tree@),
            None => pairs_get(member_views(members@), name@) is None,
        },
{
    let ghost pairs = member_views(members@);
    let mut i: usize = members.len();
    while i > 0
        invariant
            i <= members@.len(),
            pairs == member_views(members@),
            forall|j: int| i <= j < pairs.len() ==> (#[trigger] pairs[j]).0 != name@,
        decreases i,
    {
        i = i - 1;
        if same_name(members[i].0.as_str(), name) {
            proof {
                lemma_pairs_map_last(pairs, i as int);
            }
            return Some(&members[i].1);
        }
    }
    proof {
        lemma_pairs_map_domain(pairs, name@);
    }
    None
}

/// How many members of an object carry a name.
pub fn count_members(members: &Vec<(String, Json)>, name: &str) -> (n: usize)
    ensures
        n == occurrences(member_views(members@), name@),
{
    let ghost pairs = member_views(members@);
    let mut n: usize = 0;
    let mut i: usize = 0;
    proof {
        assert(pairs.take(0) =~= Seq::<(Seq<char>, JsonView)>::empty());
    }
    while i < members.len()
        invariant
            i <= members@.len(),
            pairs == member_views(members@),
            n <= i,
            n == occurrences(pairs.take(i as int), name@),
        decreases members@.len() - i,
    {
        proof {
            assert(pairs.take(i + 1).drop_last() =~= pairs.take(i as int));
            assert(pairs.take(i + 1).last().0 == members@[i as int].0@);
        }
        if same_name(members[i].0.as_str(), name) {
            n = n + 1;
        }
        i = i + 1;
    }
    proof {
        assert(pairs.take(i as int) =~= pairs);
    }
    n
}

} // verus!
