//! The records of a module: ports, cells, memories and net names.

use crate::attribute::{AttributeVal, AttributeValView};
use crate::bits::{BitVal, PortDirection};
use crate::codec::Codec;
use crate::error::{NetlistError, NetlistErrorView};
use crate::json::{member_views, Json, JsonView};
use crate::name_map::{lemma_occurrences_distinct, lemma_pairs_map_distinct, pair_names, NameMap};
use crate::name_order::distinct;
use crate::objects::{
    count_field, map_field, read_count, read_map, required, required_field,
};
use vstd::prelude::*;
use vstd::string::*;

verus! {

/// Represents a port on a module
#[derive(Clone, Debug, PartialEq, Eq)]
pub struct Port {
    /// Port direction
    pub direction: PortDirection,
    /// Bit value(s) representing the wire(s) connected to this port
    pub bits: Vec<BitVal>,
    /// Bit offset for mapping to HDL bit numbering
    pub offset: usize,
    /// Whether or not HDL bit numbering is MSB-first
    pub upto: usize,
    /// Whether or not HDL considers value signed
    pub signed: usize,
}

/// The mathematical model of a [`Port`].
pub struct PortView {
    pub direction: PortDirection,
    pub bits: Seq<BitVal>,
    pub offset: usize,
    pub upto: usize,
    pub signed: usize,
}

impl View for Port {
    type V = PortView;

    open spec fn view(&self) -> PortView {
        PortView {
            direction: self.direction,
            bits: self.bits.model(),
            offset: self.offset,
            upto: self.upto,
            signed: self.signed,
        }
    }
}

/// The member names of a port, in the order in which they are written.
pub open spec fn port_names() -> Seq<Seq<char>> {
    seq![
        "direction"@,
        "bits"@,
        "offset"@,
        "upto"@,
        "signed"@,
    ]
}

/// The member names of a port are distinct.
pub proof fn lemma_port_names()
    ensures
        distinct(port_names()),
{
    reveal_strlit("direction");
    reveal_strlit("bits");
    reveal_strlit("offset");
    reveal_strlit("upto");
    reveal_strlit("signed");
    assert("direction"@[0] == 'd');
    assert("bits"@[0] == 'b');
    assert("offset"@[0] == 'o');
    assert("upto"@[0] == 'u');
    assert("signed"@[0] == 's');
}

impl Codec for Port {
    type Model = PortView;

    open spec fn model(&self) -> PortView {
        self@
    }

    open spec fn valid(&self) -> bool {
        true
    }

    open spec fn decoded(tree: JsonView) -> Result<PortView, NetlistErrorView> {
        match tree {
            JsonView::Object(members) => {
                let direction = required_field::<PortDirection>(members, "direction"@);
                let bits = required_field::<Vec<BitVal>>(members, "bits"@);
                let offset = count_field(members, "offset"@);
                let upto = count_field(members, "upto"@);
                let signed = count_field(members, "signed"@);
                if direction is Err {
                    Err(direction->Err_0)
                } else if bits is Err {
                    Err(bits->Err_0)
                } else if offset is Err {
                    Err(offset->Err_0)
                } else if upto is Err {
                    Err(upto->Err_0)
                } else if signed is Err {
                    Err(signed->Err_0)
                } else {
                    Ok(
                        PortView {
                            direction: direction->Ok_0,
                            bits: bits->Ok_0,
                            offset: offset->Ok_0,
                            upto: upto->Ok_0,
                            signed: signed->Ok_0,
                        },
                    )
                }
            },
            other => Err(NetlistErrorView::misfit(other.shape())),
        }
    }

    open spec fn encoded(&self) -> JsonView {
        JsonView::Object(
            seq![
                ("direction"@, self.direction.encoded()),
                ("bits"@, self.bits.encoded()),
                ("offset"@, self.offset.encoded()),
                ("upto"@, self.upto.encoded()),
                ("signed"@, self.signed.encoded()),
            ],
        )
    }

    fn from_json(tree: &Json) -> (r: Result<Port, NetlistError>) {
        match tree {
            Json::Object(members) => {
                let direction = match required::<PortDirection>(members, "direction") {
                    Ok(value) => value,
                    Err(e) => {
                        return Err(e);
                    },
                };
                let bits = match required::<Vec<BitVal>>(members, "bits") {
                    Ok(value) => value,
                    Err(e) => {
                        return Err(e);
                    },
                };
                let offset = match read_count(members, "offset") {
                    Ok(value) => value,
                    Err(e) => {
                        return Err(e);
                    },
                };
                let upto = match read_count(members, "upto") {
                    Ok(value) => value,
                    Err(e) => {
                        return Err(e);
                    },
                };
                let signed = match read_count(members, "signed") {
                    Ok(value) => value,
                    Err(e) => {
                        return Err(e);
                    },
                };
                Ok(Port { direction, bits, offset, upto, signed })
            },
            other => Err(NetlistError::misfit(other.shape())),
        }
    }

    fn to_json(&self) -> (tree: Json) {
        let mut members: Vec<(String, Json)> = Vec::new();
        members.push(("direction".to_owned(), self.direction.to_json()));
        members.push(("bits".to_owned(), self.bits.to_json()));
        members.push(("offset".to_owned(), self.offset.to_json()));
        members.push(("upto".to_owned(), self.upto.to_json()));
        members.push(("signed".to_owned(), self.signed.to_json()));
        proof {
            lemma_port_names();
            let written = self.encoded()->Object_0;
            assert(member_views(members@) =~= written);
            assert(pair_names(written) =~= port_names());
        }
        Json::Object(members)
    }

    proof fn lemma_round_trip(&self) {
        lemma_port_names();
        let written = self.encoded()->Object_0;
        assert(pair_names(written) =~= port_names());
        lemma_pairs_map_distinct(written, 0);
        lemma_occurrences_distinct(written, "direction"@);
        lemma_pairs_map_distinct(written, 1);
        lemma_occurrences_distinct(written, "bits"@);
        lemma_pairs_map_distinct(written, 2);
        lemma_occurrences_distinct(written, "offset"@);
        lemma_pairs_map_distinct(written, 3);
        lemma_occurrences_distinct(written, "upto"@);
        lemma_pairs_map_distinct(written, 4);
        lemma_occurrences_distinct(written, "signed"@);
        self.direction.lemma_round_trip();
        self.bits.lemma_round_trip();
        self.offset.lemma_round_trip();
        self.upto.lemma_round_trip();
        self.signed.lemma_round_trip();
    }

    proof fn lemma_encoded_by_model(&self, other: &Self) {
        self.direction.lemma_encoded_by_model(&other.direction);
        self.bits.lemma_encoded_by_model(&other.bits);
        self.offset.lemma_encoded_by_model(&other.offset);
        self.upto.lemma_encoded_by_model(&other.upto);
        self.signed.lemma_encoded_by_model(&other.signed);
    }
}

/// Represents a cell in a module
#[derive(Clone, Debug, PartialEq, Eq)]
pub struct Cell {
    /// Indicates an internal/auto-generated name that starts with `$`
    pub hide_name: usize,
    /// Name of the type of this cell
    pub cell_type: String,
    /// Parameters specified on this cell
    pub parameters: NameMap<AttributeVal>,
    /// Attributes specified on this cell
    pub attributes: NameMap<AttributeVal>,
    /// The direction of the ports on this cell
    pub port_directions: NameMap<PortDirection>,
    /// Bit value(s) representing the wire(s) connected to the inputs/outputs of this cell
    pub connections: NameMap<Vec<BitVal>>,
}

/// The mathematical model of a [`Cell`].
pub struct CellView {
    pub hide_name: usize,
    pub cell_type: Seq<char>,
    pub parameters: Map<Seq<char>, AttributeValView>,
    pub attributes: Map<Seq<char>, AttributeValView>,
    pub port_directions: Map<Seq<char>, PortDirection>,
    pub connections: Map<Seq<char>, Seq<BitVal>>,
}

impl View for Cell {
    type V = CellView;

    open spec fn view(&self) -> CellView {
        CellView {
            hide_name: self.hide_name,
            cell_type: self.cell_type@,
            parameters: self.parameters.model(),
            attributes: self.attributes.model(),
            port_directions: self.port_directions.model(),
            connections: self.connections.model(),
        }
    }
}

/// The member names of a cell, in the order in which they are written.
pub open spec fn cell_names() -> Seq<Seq<char>> {
    seq![
        "hide_name"@,
        "type"@,
        "parameters"@,
        "attributes"@,
        "port_directions"@,
        "connections"@,
    ]
}

/// The member names of a cell are distinct.
pub proof fn lemma_cell_names()
    ensures
        distinct(cell_names()),
{
    reveal_strlit("hide_name");
    reveal_strlit("type");
    reveal_strlit("parameters");
    reveal_strlit("attributes");
    reveal_strlit("port_directions");
    reveal_strlit("connections");
    assert("hide_name"@[0] == 'h');
    assert("type"@[0] == 't');
    assert("parameters"@[0] == 'p' && "parameters"@[1] == 'a');
    assert("attributes"@[0] == 'a');
    assert("port_directions"@[0] == 'p' && "port_directions"@[1] == 'o');
    assert("connections"@[0] == 'c');
}

impl Codec for Cell {
    type Model = CellView;

    open spec fn model(&self) -> CellView {
        self@
    }

    open spec fn valid(&self) -> bool {
        &&& self.parameters.valid()
        &&& self.attributes.valid()
        &&& self.port_directions.valid()
        &&& self.connections.valid()
    }

    open spec fn decoded(tree: JsonView) -> Result<CellView, NetlistErrorView> {
        match tree {
            JsonView::Object(members) => {
                let hide_name = count_field(members, "hide_name"@);
                let cell_type = required_field::<String>(members, "type"@);
                let parameters = map_field::<AttributeVal>(members, "parameters"@);
                let attributes = map_field::<AttributeVal>(members, "attributes"@);
                let port_directions = map_field::<PortDirection>(members, "port_directions"@);
                let connections = required_field::<NameMap<Vec<BitVal>>>(members, "connections"@);
                if hide_name is Err {
                    Err(hide_name->Err_0)
                } else if cell_type is Err {
                    Err(cell_type->Err_0)
                } else if parameters is Err {
                    Err(parameters->Err_0)
                } else if attributes is Err {
                    Err(attributes->Err_0)
                } else if port_directions is Err {
                    Err(port_directions->Err_0)
                } else if connections is Err {
                    Err(connections->Err_0)
                } else {
                    Ok(
                        CellView {
                            hide_name: hide_name->Ok_0,
                            cell_type: cell_type->Ok_0,
                            parameters: parameters->Ok_0,
                            attributes: attributes->Ok_0,
                            port_directions: port_directions->Ok_0,
                            connections: connections->Ok_0,
                        },
                    )
                }
            },
            other => Err(NetlistErrorView::misfit(other.shape())),
        }
    }

    open spec fn encoded(&self) -> JsonView {
        JsonView::Object(
            seq![
                ("hide_name"@, self.hide_name.encoded()),
                ("type"@, self.cell_type.encoded()),
                ("parameters"@, self.parameters.encoded()),
                ("attributes"@, self.attributes.encoded()),
                ("port_directions"@, self.port_directions.encoded()),
                ("connections"@, self.connections.encoded()),
            ],
        )
    }

    fn from_json(tree: &Json) -> (r: Result<Cell, NetlistError>) {
        match tree {
            Json::Object(members) => {
                let hide_name = match read_count(members, "hide_name") {
                    Ok(value) => value,
                    Err(e) => {
                        return Err(e);
                    },
                };
                let cell_type = match required::<String>(members, "type") {
                    Ok(value) => value,
                    Err(e) => {
                        return Err(e);
                    },
                };
                let parameters = match read_map::<AttributeVal>(members, "parameters") {
                    Ok(value) => value,
                    Err(e) => {
                        return Err(e);
                    },
                };
                let attributes = match read_map::<AttributeVal>(members, "attributes") {
                    Ok(value) => value,
                    Err(e) => {
                        return Err(e);
                    },
                };
                let port_directions = match read_map::<PortDirection>(members, "port_directions") {
                    Ok(value) => value,
                    Err(e) => {
                        return Err(e);
                    },
                };
                let connections = match required::<NameMap<Vec<BitVal>>>(members, "connections") {
                    Ok(value) => value,
                    Err(e) => {
                        return Err(e);
                    },
                };
                Ok(
                    Cell {
                        hide_name,
                        cell_type,
                        parameters,
                        attributes,
                        port_directions,
                        connections,
                    },
                )
            },
            other => Err(NetlistError::misfit(other.shape())),
        }
    }

    fn to_json(&self) -> (tree: Json) {
        let mut members: Vec<(String, Json)> = Vec::new();
        members.push(("hide_name".to_owned(), self.hide_name.to_json()));
        members.push(("type".to_owned(), self.cell_type.to_json()));
        members.push(("parameters".to_owned(), self.parameters.to_json()));
        members.push(("attributes".to_owned(), self.attributes.to_json()));
        members.push(("port_directions".to_owned(), self.port_directions.to_json()));
        members.push(("connections".to_owned(), self.connections.to_json()));
        proof {
            lemma_cell_names();
            let written = self.encoded()->Object_0;
            assert(member_views(members@) =~= written);
            assert(pair_names(written) =~= cell_names());
        }
        Json::Object(members)
    }

    proof fn lemma_round_trip(&self) {
        lemma_cell_names();
        let written = self.encoded()->Object_0;
        assert(pair_names(written) =~= cell_names());
        lemma_pairs_map_distinct(written, 0);
        lemma_occurrences_distinct(written, "hide_name"@);
        lemma_pairs_map_distinct(written, 1);
        lemma_occurrences_distinct(written, "type"@);
        lemma_pairs_map_distinct(written, 2);
        lemma_occurrences_distinct(written, "parameters"@);
        lemma_pairs_map_distinct(written, 3);
        lemma_occurrences_distinct(written, "attributes"@);
        lemma_pairs_map_distinct(written, 4);
        lemma_occurrences_distinct(written, "port_directions"@);
        lemma_pairs_map_distinct(written, 5);
        lemma_occurrences_distinct(written, "connections"@);
        self.hide_name.lemma_round_trip();
        self.cell_type.lemma_round_trip();
        self.parameters.lemma_round_trip();
        self.attributes.lemma_round_trip();
        self.port_directions.lemma_round_trip();
        self.connections.lemma_round_trip();
    }

    proof fn lemma_encoded_by_model(&self, other: &Self) {
        self.hide_name.lemma_encoded_by_model(&other.hide_name);
        self.cell_type.lemma_encoded_by_model(&other.cell_type);
        self.parameters.lemma_encoded_by_model(&other.parameters);
        self.attributes.lemma_encoded_by_model(&other.attributes);
        self.port_directions.lemma_encoded_by_model(&other.port_directions);
        self.connections.lemma_encoded_by_model(&other.connections);
    }
}

/// Represents a memory in a module
#[derive(Clone, Debug, PartialEq, Eq)]
pub struct Memory {
    /// Indicates an internal/auto-generated name that starts with `$`
    pub hide_name: usize,
    /// Attributes for this memory
    pub attributes: NameMap<AttributeVal>,
    /// Memory width
    pub width: usize,
    /// Memory size
    pub size: usize,
    /// Lowest valid memory address
    pub start_offset: usize,
}

/// The mathematical model of a [`Memory`].
pub struct MemoryView {
    pub hide_name: usize,
    pub attributes: Map<Seq<char>, AttributeValView>,
    pub width: usize,
    pub size: usize,
    pub start_offset: usize,
}

impl View for Memory {
    type V = MemoryView;

    open spec fn view(&self) -> MemoryView {
        MemoryView {
            hide_name: self.hide_name,
            attributes: self.attributes.model(),
            width: self.width,
            size: self.size,
            start_offset: self.start_offset,
        }
    }
}

/// The member names of a memory, in the order in which they are written.
pub open spec fn memory_names() -> Seq<Seq<char>> {
    seq![
        "hide_name"@,
        "attributes"@,
        "width"@,
        "size"@,
        "start_offset"@,
    ]
}

/// The member names of a memory are distinct.
pub proof fn lemma_memory_names()
    ensures
        distinct(memory_names()),
{
    reveal_strlit("hide_name");
    reveal_strlit("attributes");
    reveal_strlit("width");
    reveal_strlit("size");
    reveal_strlit("start_offset");
    assert("hide_name"@[0] == 'h');
    assert("attributes"@[0] == 'a');
    assert("width"@[0] == 'w');
    assert("size"@[0] == 's' && "size"@[1] == 'i');
    assert("start_offset"@[0] == 's' && "start_offset"@[1] == 't');
}

impl Codec for Memory {
    type Model = MemoryView;

    open spec fn model(&self) -> MemoryView {
        self@
    }

    open spec fn valid(&self) -> bool {
        &&& self.attributes.valid()
    }

    open spec fn decoded(tree: JsonView) -> Result<MemoryView, NetlistErrorView> {
        match tree {
            JsonView::Object(members) => {
                let hide_name = count_field(members, "hide_name"@);
                let attributes = map_field::<AttributeVal>(members, "attributes"@);
                let width = required_field::<usize>(members, "width"@);
                let size = required_field::<usize>(members, "size"@);
                let start_offset = count_field(members, "start_offset"@);
                if hide_name is Err {
                    Err(hide_name->Err_0)
                } else if attributes is Err {
                    Err(attributes->Err_0)
                } else if width is Err {
                    Err(width->Err_0)
                } else if size is Err {
                    Err(size->Err_0)
                } else if start_offset is Err {
                    Err(start_offset->Err_0)
                } else {
                    Ok(
                        MemoryView {
                            hide_name: hide_name->Ok_0,
                            attributes: attributes->Ok_0,
                            width: width->Ok_0,
                            size: size->Ok_0,
                            start_offset: start_offset->Ok_0,
                        },
                    )
                }
            },
            other => Err(NetlistErrorView::misfit(other.shape())),
        }
    }

    open spec fn encoded(&self) -> JsonView {
        JsonView::Object(
            seq![
                ("hide_name"@, self.hide_name.encoded()),
                ("attributes"@, self.attributes.encoded()),
                ("width"@, self.width.encoded()),
                ("size"@, self.size.encoded()),
                ("start_offset"@, self.start_offset.encoded()),
            ],
        )
    }

    fn from_json(tree: &Json) -> (r: Result<Memory, NetlistError>) {
        match tree {
            Json::Object(members) => {
                let hide_name = match read_count(members, "hide_name") {
                    Ok(value) => value,
                    Err(e) => {
                        return Err(e);
                    },
                };
                let attributes = match read_map::<AttributeVal>(members, "attributes") {
                    Ok(value) => value,
                    Err(e) => {
                        return Err(e);
                    },
                };
                let width = match required::<usize>(members, "width") {
                    Ok(value) => value,
                    Err(e) => {
                        return Err(e);
                    },
                };
                let size = match required::<usize>(members, "size") {
                    Ok(value) => value,
                    Err(e) => {
                        return Err(e);
                    },
                };
                let start_offset = match read_count(members, "start_offset") {
                    Ok(value) => value,
                    Err(e) => {
                        return Err(e);
                    },
                };
                Ok(Memory { hide_name, attributes, width, size, start_offset })
            },
            other => Err(NetlistError::misfit(other.shape())),
        }
    }

    fn to_json(&self) -> (tree: Json) {
        let mut members: Vec<(String, Json)> = Vec::new();
        members.push(("hide_name".to_owned(), self.hide_name.to_json()));
        members.push(("attributes".to_owned(), self.attributes.to_json()));
        members.push(("width".to_owned(), self.width.to_json()));
        members.push(("size".to_owned(), self.size.to_json()));
        members.push(("start_offset".to_owned(), self.start_offset.to_json()));
        proof {
            lemma_memory_names();
            let written = self.encoded()->Object_0;
            assert(member_views(members@) =~= written);
            assert(pair_names(written) =~= memory_names());
        }
        Json::Object(members)
    }

    proof fn lemma_round_trip(&self) {
        lemma_memory_names();
        let written = self.encoded()->Object_0;
        assert(pair_names(written) =~= memory_names());
        lemma_pairs_map_distinct(written, 0);
        lemma_occurrences_distinct(written, "hide_name"@);
        lemma_pairs_map_distinct(written, 1);
        lemma_occurrences_distinct(written, "attributes"@);
        lemma_pairs_map_distinct(written, 2);
        lemma_occurrences_distinct(written, "width"@);
        lemma_pairs_map_distinct(written, 3);
        lemma_occurrences_distinct(written, "size"@);
        lemma_pairs_map_distinct(written, 4);
        lemma_occurrences_distinct(written, "start_offset"@);
        self.hide_name.lemma_round_trip();
        self.attributes.lemma_round_trip();
        self.width.lemma_round_trip();
        self.size.lemma_round_trip();
        self.start_offset.lemma_round_trip();
    }

    proof fn lemma_encoded_by_model(&self, other: &Self) {
        self.hide_name.lemma_encoded_by_model(&other.hide_name);
        self.attributes.lemma_encoded_by_model(&other.attributes);
        self.width.lemma_encoded_by_model(&other.width);
        self.size.lemma_encoded_by_model(&other.size);
        self.start_offset.lemma_encoded_by_model(&other.start_offset);
    }
}

/// Represents the name of a net in a module
#[derive(Clone, Debug, PartialEq, Eq)]
pub struct Netname {
    /// Indicates an internal/auto-generated name that starts with `$`
    pub hide_name: usize,
    /// Bit value(s) that should be given this name
    pub bits: Vec<BitVal>,
    /// Bit offset for mapping to HDL bit numbering
    pub offset: usize,
    /// Whether or not HDL bit numbering is MSB-first
    pub upto: usize,
    /// Whether or not HDL considers value signed
    pub signed: usize,
    /// Attributes for this netname
    pub attributes: NameMap<AttributeVal>,
}

/// The mathematical model of a [`Netname`].
pub struct NetnameView {
    pub hide_name: usize,
    pub bits: Seq<BitVal>,
    pub offset: usize,
    pub upto: usize,
    pub signed: usize,
    pub attributes: Map<Seq<char>, AttributeValView>,
}

impl View for Netname {
    type V = NetnameView;

    open spec fn view(&self) -> NetnameView {
        NetnameView {
            hide_name: self.hide_name,
            bits: self.bits.model(),
            offset: self.offset,
            upto: self.upto,
            signed: self.signed,
            attributes: self.attributes.model(),
        }
    }
}

/// The member names of a netname, in the order in which they are written.
pub open spec fn netname_names() -> Seq<Seq<char>> {
    seq![
        "hide_name"@,
        "bits"@,
        "offset"@,
        "upto"@,
        "signed"@,
        "attributes"@,
    ]
}

/// The member names of a netname are distinct.
pub proof fn lemma_netname_names()
    ensures
        distinct(netname_names()),
{
    reveal_strlit("hide_name");
    reveal_strlit("bits");
    reveal_strlit("offset");
    reveal_strlit("upto");
    reveal_strlit("signed");
    reveal_strlit("attributes");
    assert("hide_name"@[0] == 'h');
    assert("bits"@[0] == 'b');
    assert("offset"@[0] == 'o');
    assert("upto"@[0] == 'u');
    assert("signed"@[0] == 's');
    assert("attributes"@[0] == 'a');
}

impl Codec for Netname {
    type Model = NetnameView;

    open spec fn model(&self) -> NetnameView {
        self@
    }

    open spec fn valid(&self) -> bool {
        &&& self.attributes.valid()
    }

    open spec fn decoded(tree: JsonView) -> Result<NetnameView, NetlistErrorView> {
        match tree {
            JsonView::Object(members) => {
                let hide_name = count_field(members, "hide_name"@);
                let bits = required_field::<Vec<BitVal>>(members, "bits"@);
                let offset = count_field(members, "offset"@);
                let upto = count_field(members, "upto"@);
                let signed = count_field(members, "signed"@);
                let attributes = map_field::<AttributeVal>(members, "attributes"@);
                if hide_name is Err {
                    Err(hide_name->Err_0)
                } else if bits is Err {
                    Err(bits->Err_0)
                } else if offset is Err {
                    Err(offset->Err_0)
                } else if upto is Err {
                    Err(upto->Err_0)
                } else if signed is Err {
                    Err(signed->Err_0)
                } else if attributes is Err {
                    Err(attributes->Err_0)
                } else {
                    Ok(
                        NetnameView {
                            hide_name: hide_name->Ok_0,
                            bits: bits->Ok_0,
                            offset: offset->Ok_0,
                            upto: upto->Ok_0,
                            signed: signed->Ok_0,
                            attributes: attributes->Ok_0,
                        },
                    )
                }
            },
            other => Err(NetlistErrorView::misfit(other.shape())),
        }
    }

    open spec fn encoded(&self) -> JsonView {
        JsonView::Object(
            seq![
                ("hide_name"@, self.hide_name.encoded()),
                ("bits"@, self.bits.encoded()),
                ("offset"@, self.offset.encoded()),
                ("upto"@, self.upto.encoded()),
                ("signed"@, self.signed.encoded()),
                ("attributes"@, self.attributes.encoded()),
            ],
        )
    }

    fn from_json(tree: &Json) -> (r: Result<Netname, NetlistError>) {
        match tree {
            Json::Object(members) => {
                let hide_name = match read_count(members, "hide_name") {
                    Ok(value) => value,
                    Err(e) => {
                        return Err(e);
                    },
                };
                let bits = match required::<Vec<BitVal>>(members, "bits") {
                    Ok(value) => value,
                    Err(e) => {
                        return Err(e);
                    },
                };
                let offset = match read_count(members, "offset") {
                    Ok(value) => value,
                    Err(e) => {
                        return Err(e);
                    },
                };
                let upto = match read_count(members, "upto") {
                    Ok(value) => value,
                    Err(e) => {
                        return Err(e);
                    },
                };
                let signed = match read_count(members, "signed") {
                    Ok(value) => value,
                    Err(e) => {
                        return Err(e);
                    },
                };
                let attributes = match read_map::<AttributeVal>(members, "attributes") {
                    Ok(value) => value,
                    Err(e) => {
                        return Err(e);
                    },
                };
                Ok(Netname { hide_name, bits, offset, upto, signed, attributes })
            },
            other => Err(NetlistError::misfit(other.shape())),
        }
    }

    fn to_json(&self) -> (tree: Json) {
        let mut members: Vec<(String, Json)> = Vec::new();
        members.push(("hide_name".to_owned(), self.hide_name.to_json()));
        members.push(("bits".to_owned(), self.bits.to_json()));
        members.push(("offset".to_owned(), self.offset.to_json()));
        members.push(("upto".to_owned(), self.upto.to_json()));
        members.push(("signed".to_owned(), self.signed.to_json()));
        members.push(("attributes".to_owned(), self.attributes.to_json()));
        proof {
            lemma_netname_names();
            let written = self.encoded()->Object_0;
            assert(member_views(members@) =~= written);
            assert(pair_names(written) =~= netname_names());
        }
        Json::Object(members)
    }

    proof fn lemma_round_trip(&self) {
        lemma_netname_names();
        let written = self.encoded()->Object_0;
        assert(pair_names(written) =~= netname_names());
        lemma_pairs_map_distinct(written, 0);
        lemma_occurrences_distinct(written, "hide_name"@);
        lemma_pairs_map_distinct(written, 1);
        lemma_occurrences_distinct(written, "bits"@);
        lemma_pairs_map_distinct(written, 2);
        lemma_occurrences_distinct(written, "offset"@);
        lemma_pairs_map_distinct(written, 3);
        lemma_occurrences_distinct(written, "upto"@);
        lemma_pairs_map_distinct(written, 4);
        lemma_occurrences_distinct(written, "signed"@);
        lemma_pairs_map_distinct(written, 5);
        lemma_occurrences_distinct(written, "attributes"@);
        self.hide_name.lemma_round_trip();
        self.bits.lemma_round_trip();
        self.offset.lemma_round_trip();
        self.upto.lemma_round_trip();
        self.signed.lemma_round_trip();
        self.attributes.lemma_round_trip();
    }

    proof fn lemma_encoded_by_model(&self, other: &Self) {
        self.hide_name.lemma_encoded_by_model(&other.hide_name);
        self.bits.lemma_encoded_by_model(&other.bits);
        self.offset.lemma_encoded_by_model(&other.offset);
        self.upto.lemma_encoded_by_model(&other.upto);
        self.signed.lemma_encoded_by_model(&other.signed);
        self.attributes.lemma_encoded_by_model(&other.attributes);
    }
}

} // verus!
