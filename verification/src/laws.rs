//! What holds of the codec as a whole.

use crate::attribute::{AttributeVal, AttributeValView};
use crate::bits::BitVal;
use crate::codec::Codec;
use crate::error::NetlistErrorView;
use crate::json::JsonView;
use crate::name_map::{lemma_occurrences_distinct, occurrences, pair_names, pairs_map};
use crate::name_order::distinct;
use crate::netlist::{Module, Netlist, NetlistView};
use crate::records::{Cell, Memory, Netname, Port};
use vstd::prelude::*;

verus! {

/// Reading the tree as which a netlist is written gives the netlist back,
/// field by field, and the tree is in canonical form.
pub proof fn law_round_trip(netlist: Netlist)
    requires
        netlist.valid(),
    ensures
        Netlist::decoded(netlist.encoded()) == Ok::<NetlistView, NetlistErrorView>(netlist@),
        netlist.encoded().canonical(),
{
    netlist.lemma_round_trip();
}

/// Two netlists that are equal field by field are written as the same
/// tree: the order in which a map got its entries leaves no trace.
pub proof fn law_written_by_model(one: Netlist, other: Netlist)
    requires
        one.valid(),
        other.valid(),
        one@ == other@,
    ensures
        one.encoded() == other.encoded(),
{
    one.lemma_encoded_by_model(&other);
}

/// A record is read by the names of its members: two objects without
/// repeated names that give the same names the same values are read alike,
/// whatever the order of their members.
pub proof fn law_member_order_immaterial(
    one: Seq<(Seq<char>, JsonView)>,
    other: Seq<(Seq<char>, JsonView)>,
)
    requires
        distinct(pair_names(one)),
        distinct(pair_names(other)),
        pairs_map(one) == pairs_map(other),
    ensures
        Port::decoded(JsonView::Object(one)) == Port::decoded(JsonView::Object(other)),
        Cell::decoded(JsonView::Object(one)) == Cell::decoded(JsonView::Object(other)),
        Memory::decoded(JsonView::Object(one)) == Memory::decoded(JsonView::Object(other)),
        Netname::decoded(JsonView::Object(one)) == Netname::decoded(JsonView::Object(other)),
        Module::decoded(JsonView::Object(one)) == Module::decoded(JsonView::Object(other)),
        Netlist::decoded(JsonView::Object(one)) == Netlist::decoded(JsonView::Object(other)),
{
    assert forall|name: Seq<char>|
        occurrences(one, name) <= 1 && occurrences(other, name) <= 1 by {
        lemma_occurrences_distinct(one, name);
        lemma_occurrences_distinct(other, name);
    }
}

/// A record that has one of its members more than once is not read.
pub proof fn law_repeated_member_refused(members: Seq<(Seq<char>, JsonView)>)
    requires
        occurrences(members, "creator"@) > 1 || occurrences(members, "modules"@) > 1,
    ensures
        Netlist::decoded(JsonView::Object(members)) is Err,
{
}

/// An attribute value is written as it was read: a number as that number, a
/// string as that string, whatever the string holds.
pub proof fn law_attribute_kept_as_read(tree: JsonView, value: AttributeVal)
    requires
        AttributeVal::decoded(tree) == Ok::<_, NetlistErrorView>(value@),
    ensures
        value.encoded() == tree,
{
}

/// Every string is read as an attribute value, and as itself.
pub proof fn law_attribute_reads_any_string(s: Seq<char>)
    ensures
        AttributeVal::decoded(JsonView::String(s)) == Ok::<_, NetlistErrorView>(
            AttributeValView::S(s),
        ),
{
}

/// A bit is written as it was read: a signal number as that number, a
/// constant as its one-character string.
pub proof fn law_bit_kept_as_read(tree: JsonView, value: BitVal)
    requires
        BitVal::decoded(tree) == Ok::<_, NetlistErrorView>(value),
    ensures
        value.encoded() == tree,
{
}

/// An attribute value that reads as a number does not read as text.
pub proof fn law_number_is_no_text(value: AttributeVal)
    requires
        value@.number() is Some,
    ensures
        value@.text() is None,
{
}

} // verus!
