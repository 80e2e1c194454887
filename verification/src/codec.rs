//! How values are read from and written to JSON trees.

use crate::error::{NetlistError, NetlistErrorView, Step, StepView};
use crate::json::{item_views, member_views, Json, JsonNumber, JsonView, NumberView};
use vstd::prelude::*;

verus! {

/// A type whose values are read from and written to JSON trees.
pub trait Codec: Sized {
    /// The mathematical model of a value.
    type Model;

    /// The model of this value.
    spec fn model(&self) -> Self::Model;

    /// What every value that this library builds satisfies.
    spec fn valid(&self) -> bool;

    /// What reading a tree gives: the model of a value, or the first error
    /// on the way through the tree.
    spec fn decoded(tree: JsonView) -> Result<Self::Model, NetlistErrorView>;

    /// The tree as which this value is written.
    spec fn encoded(&self) -> JsonView;

    /// Reads a value from a tree.
    fn from_json(tree: &Json) -> (r: Result<Self, NetlistError>)
        ensures
            match r {
                Ok(value) => value.valid() && Self::decoded(tree@) == Ok::<
                    Self::Model,
                    NetlistErrorView,
                >(value.model()),
                Err(e) => Self::decoded(tree@) == Err::<Self::Model, NetlistErrorView>(e@),
            },
    ;

    /// Writes this value as a tree.
    fn to_json(&self) -> (tree: Json)
        ensures
            tree@ == self.encoded(),
            tree@.canonical(),
    ;

    /// Reading what was written gives the value back, and what is written
    /// is in canonical form.
    proof fn lemma_round_trip(&self)
        requires
            self.valid(),
        ensures
            Self::decoded(self.encoded()) == Ok::<Self::Model, NetlistErrorView>(self.model()),
            self.encoded().canonical(),
    ;

    /// The tree as which a value is written depends on its model alone.
    proof fn lemma_encoded_by_model(&self, other: &Self)
        requires
            self.valid(),
            other.valid(),
            self.model() == other.model(),
        ensures
            self.encoded() == other.encoded(),
    ;
}

impl Codec for usize {
    type Model = usize;

    open spec fn model(&self) -> usize {
        *self
    }

    open spec fn valid(&self) -> bool {
        true
    }

    open spec fn decoded(tree: JsonView) -> Result<usize, NetlistErrorView> {
        match tree {
            JsonView::Number(number) => match number.count() {
                Ok(n) => Ok(n),
                Err(e) => Err(e),
            },
            other => Err(NetlistErrorView::misfit(other.shape())),
        }
    }

    open spec fn encoded(&self) -> JsonView {
        JsonView::Number(NumberView::Unsigned(*self as u64))
    }

    fn from_json(tree: &Json) -> (r: Result<usize, NetlistError>) {
        match tree {
            Json::Number(number) => match number.to_count() {
                Ok(n) => Ok(n),
                Err(e) => Err(e),
            },
            other => Err(NetlistError::misfit(other.shape())),
        }
    }

    fn to_json(&self) -> (tree: Json) {
        Json::Number(JsonNumber::unsigned(*self as u64))
    }

    proof fn lemma_round_trip(&self) {
    }

    proof fn lemma_encoded_by_model(&self, other: &Self) {
    }
}

impl Codec for String {
    type Model = Seq<char>;

    open spec fn model(&self) -> Seq<char> {
        self@
    }

    open spec fn valid(&self) -> bool {
        true
    }

    open spec fn decoded(tree: JsonView) -> Result<Seq<char>, NetlistErrorView> {
        match tree {
            JsonView::String(s) => Ok(s),
            other => Err(NetlistErrorView::misfit(other.shape())),
        }
    }

    open spec fn encoded(&self) -> JsonView {
        JsonView::String(self@)
    }

    fn from_json(tree: &Json) -> (r: Result<String, NetlistError>) {
        match tree {
            Json::String(s) => Ok(s.clone()),
            other => Err(NetlistError::misfit(other.shape())),
        }
    }

    fn to_json(&self) -> (tree: Json) {
        Json::String(self.clone())
    }

    proof fn lemma_round_trip(&self) {
    }

    proof fn lemma_encoded_by_model(&self, other: &Self) {
    }
}

/// What reading the items of an array gives: the models in order, or the
/// error of the first item that cannot be read, with its position.
pub open spec fn decoded_items<T: Codec>(items: Seq<JsonView>) -> Result<
    Seq<T::Model>,
    NetlistErrorView,
>
    decreases items.len(),
{
    if items.len() == 0 {
        Ok(Seq::empty())
    } else {
        match decoded_items::<T>(items.drop_last()) {
            Err(e) => Err(e),
            Ok(front) => match T::decoded(items.last()) {
                Err(e) => Err(e.within(StepView::Index(items.len() - 1))),
                Ok(model) => Ok(front.push(model)),
            },
        }
    }
}

/// An array cannot be read if its first `n` items cannot.
pub proof fn lemma_decoded_items_stops<T: Codec>(items: Seq<JsonView>, n: int)
    requires
        0 <= n <= items.len(),
        decoded_items::<T>(items.take(n)) is Err,
    ensures
        decoded_items::<T>(items) == decoded_items::<T>(items.take(n)),
    decreases items.len() - n,
{
    if n < items.len() {
        assert(items.take(n + 1).drop_last() =~= items.take(n));
        lemma_decoded_items_stops::<T>(items, n + 1);
    } else {
        assert(items.take(n) =~= items);
    }
}

/// The models of a sequence of values.
pub open spec fn item_models<T: Codec>(items: Seq<T>) -> Seq<T::Model> {
    Seq::new(items.len(), |i: int| items[i].model())
}

/// The trees as which a sequence of values is written.
pub open spec fn encoded_items<T: Codec>(items: Seq<T>) -> Seq<JsonView> {
    Seq::new(items.len(), |i: int| items[i].encoded())
}

/// Reading the first `n` of the trees of valid values gives their models.
pub proof fn lemma_items_round_trip<T: Codec>(items: Seq<T>, n: int)
    requires
        0 <= n <= items.len(),
        forall|i: int| 0 <= i < items.len() ==> (#[trigger] items[i]).valid(),
    ensures
        decoded_items::<T>(encoded_items(items).take(n)) == Ok::<Seq<T::Model>, NetlistErrorView>(
            item_models(items).take(n),
        ),
    decreases n,
{
    let trees = encoded_items(items).take(n);
    if n == 0 {
        assert(item_models(items).take(0) =~= Seq::<T::Model>::empty());
    } else {
        lemma_items_round_trip(items, n - 1);
        assert(trees.drop_last() =~= encoded_items(items).take(n - 1));
        items[n - 1].lemma_round_trip();
        assert(item_models(items).take(n - 1).push(items[n - 1].model()) =~= item_models(
            items,
        ).take(n));
    }
}

impl<T: Codec> Codec for Vec<T> {
    type Model = Seq<T::Model>;

    open spec fn model(&self) -> Seq<T::Model> {
        item_models(self@)
    }

    open spec fn valid(&self) -> bool {
        forall|i: int| 0 <= i < self@.len() ==> (#[trigger] self@[i]).valid()
    }

    open spec fn decoded(tree: JsonView) -> Result<Seq<T::Model>, NetlistErrorView> {
        match tree {
            JsonView::Array(items) => decoded_items::<T>(items),
            other => Err(NetlistErrorView::misfit(other.shape())),
        }
    }

    open spec fn encoded(&self) -> JsonView {
        JsonView::Array(encoded_items(self@))
    }

    fn from_json(tree: &Json) -> (r: Result<Vec<T>, NetlistError>) {
        match tree {
            Json::Array(items) => {
                let ghost trees = item_views(items@);
                let mut values: Vec<T> = Vec::new();
                let mut i: usize = 0;
                proof {
                    assert(item_models(values@) =~= Seq::<T::Model>::empty());
                    assert(trees.take(0) =~= Seq::<JsonView>::empty());
                }
                while i < items.len()
                    invariant
                        i <= items@.len(),
                        trees == item_views(items@),
                        tree@ == JsonView::Array(trees),
                        values@.len() == i,
                        forall|j: int| 0 <= j < i ==> (#[trigger] values@[j]).valid(),
                        decoded_items::<T>(trees.take(i as int)) == Ok::<
                            Seq<T::Model>,
                            NetlistErrorView,
                        >(item_models(values@)),
                    decreases items@.len() - i,
                {
                    let ghost front = item_models(values@);
                    proof {
                        assert(trees.take(i + 1).drop_last() =~= trees.take(i as int));
                        assert(trees.take(i + 1).last() == items@[i as int]@);
                    }
                    match T::from_json(&items[i]) {
                        Ok(value) => {
                            values.push(value);
                            proof {
                                assert(item_models(values@) =~= front.push(value.model()));
                            }
                        },
                        Err(e) => {
                            proof {
                                assert(trees.take(i + 1).len() == i + 1);
                                assert(decoded_items::<T>(trees.take(i + 1)) == Err::<
                                    Seq<T::Model>,
                                    NetlistErrorView,
                                >(e@.within(StepView::Index(i as int))));
                                lemma_decoded_items_stops::<T>(trees, i + 1);
                            }
                            return Err(e.within(Step::Index(i)));
                        },
                    }
                    i = i + 1;
                }
                proof {
                    assert(trees.take(i as int) =~= trees);
                }
                Ok(values)
            },
            other => Err(NetlistError::misfit(other.shape())),
        }
    }

    fn to_json(&self) -> (tree: Json) {
        let mut items: Vec<Json> = Vec::new();
        let mut i: usize = 0;
        while i < self.len()
            invariant
                i <= self@.len(),
                items@.len() == i,
                forall|j: int| 0 <= j < i ==> (#[trigger] items@[j])@ == self@[j].encoded(),
                forall|j: int| 0 <= j < i ==> (#[trigger] items@[j])@.canonical(),
            decreases self@.len() - i,
        {
            let item = self[i].to_json();
            items.push(item);
            i = i + 1;
        }
        proof {
            assert(item_views(items@) =~= encoded_items(self@));
        }
        Json::Array(items)
    }

    proof fn lemma_round_trip(&self) {
        lemma_items_round_trip(self@, self@.len() as int);
        assert(encoded_items(self@).take(self@.len() as int) =~= encoded_items(self@));
        assert(item_models(self@).take(self@.len() as int) =~= item_models(self@));
        assert forall|i: int| 0 <= i < self@.len() implies (#[trigger] encoded_items(
            self@,
        )[i]).canonical() by {
            self@[i].lemma_round_trip();
        }
    }

    proof fn lemma_encoded_by_model(&self, other: &Self) {
        assert(self@.len() == item_models(self@).len());
        assert(other@.len() == item_models(other@).len());
        assert forall|i: int| 0 <= i < self@.len() implies (#[trigger] encoded_items(self@)[i])
            == encoded_items(other@)[i] by {
            assert(item_models(self@)[i] == item_models(other@)[i]);
            self@[i].lemma_encoded_by_model(&other@[i]);
        }
        assert(encoded_items(self@) =~= encoded_items(other@));
    }
}

} // verus!
