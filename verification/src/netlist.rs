//! Modules and whole netlists.

use crate::attribute::{AttributeVal, AttributeValView};
use crate::codec::Codec;
use crate::error::{NetlistError, NetlistErrorView};
use crate::json::{member_views, Json, JsonView};
use crate::name_map::{lemma_occurrences_distinct, lemma_pairs_map_distinct, pair_names, NameMap};
use crate::name_order::distinct;
use crate::objects::{map_field, read_map, read_text, text_field};
use crate::records::{Cell, CellView, Memory, MemoryView, Netname, NetnameView, Port, PortView};
use crate::text::{
    error_text, lift_value, lower_value, parse_value, parsed_tree, render_value, rendered_text,
};
use vstd::prelude::*;
use vstd::string::*;

verus! {

/// Represents one module in the Yosys hierarchy
#[derive(Clone, Debug, PartialEq, Eq)]
pub struct Module {
    /// Module attributes (Verilog `(* attr *)`)
    pub attributes: NameMap<AttributeVal>,
    /// Module parameter (Verilog `parameter`) default values
    pub parameter_default_values: NameMap<AttributeVal>,
    /// Module ports (interfaces to other modules)
    pub ports: NameMap<Port>,
    /// Module cells (objects inside this module)
    pub cells: NameMap<Cell>,
    /// Module memories
    pub memories: NameMap<Memory>,
    /// Module netnames (names of wires in this module)
    pub netnames: NameMap<Netname>,
}

/// The mathematical model of a [`Module`].
pub struct ModuleView {
    pub attributes: Map<Seq<char>, AttributeValView>,
    pub parameter_default_values: Map<Seq<char>, AttributeValView>,
    pub ports: Map<Seq<char>, PortView>,
    pub cells: Map<Seq<char>, CellView>,
    pub memories: Map<Seq<char>, MemoryView>,
    pub netnames: Map<Seq<char>, NetnameView>,
}

impl View for Module {
    type V = ModuleView;

    open spec fn view(&self) -> ModuleView {
        ModuleView {
            attributes: self.attributes.model(),
            parameter_default_values: self.parameter_default_values.model(),
            ports: self.ports.model(),
            cells: self.cells.model(),
            memories: self.memories.model(),
            netnames: self.netnames.model(),
        }
    }
}

impl Default for Module {
    /// The module that holds nothing.
    fn default() -> (module: Module)
        ensures
            module.valid(),
            module@ == (ModuleView {
                attributes: Map::empty(),
                parameter_default_values: Map::empty(),
                ports: Map::empty(),
                cells: Map::empty(),
                memories: Map::empty(),
                netnames: Map::empty(),
            }),
    {
        let attributes: NameMap<AttributeVal> = NameMap::new();
        let parameter_default_values: NameMap<AttributeVal> = NameMap::new();
        let ports: NameMap<Port> = NameMap::new();
        let cells: NameMap<Cell> = NameMap::new();
        let memories: NameMap<Memory> = NameMap::new();
        let netnames: NameMap<Netname> = NameMap::new();
        proof {
            assert(attributes.model() =~= Map::<Seq<char>, AttributeValView>::empty());
            assert(parameter_default_values.model() =~= Map::<
                Seq<char>,
                AttributeValView,
            >::empty());
            assert(ports.model() =~= Map::<Seq<char>, PortView>::empty());
            assert(cells.model() =~= Map::<Seq<char>, CellView>::empty());
            assert(memories.model() =~= Map::<Seq<char>, MemoryView>::empty());
            assert(netnames.model() =~= Map::<Seq<char>, NetnameView>::empty());
        }
        Module { attributes, parameter_default_values, ports, cells, memories, netnames }
    }
}

/// The member names of a module, in the order in which they are written.
pub open spec fn module_names() -> Seq<Seq<char>> {
    seq![
        "attributes"@,
        "parameter_default_values"@,
        "ports"@,
        "cells"@,
        "memories"@,
        "netnames"@,
    ]
}

/// The member names of a module are distinct.
pub proof fn lemma_module_names()
    ensures
        distinct(module_names()),
{
    reveal_strlit("attributes");
    reveal_strlit("parameter_default_values");
    reveal_strlit("ports");
    reveal_strlit("cells");
    reveal_strlit("memories");
    reveal_strlit("netnames");
    assert("attributes"@[0] == 'a');
    assert("parameter_default_values"@[0] == 'p' && "parameter_default_values"@[1] == 'a');
    assert("ports"@[0] == 'p' && "ports"@[1] == 'o');
    assert("cells"@[0] == 'c');
    assert("memories"@[0] == 'm');
    assert("netnames"@[0] == 'n');
}

impl Codec for Module {
    type Model = ModuleView;

    open spec fn model(&self) -> ModuleView {
        self@
    }

    open spec fn valid(&self) -> bool {
        &&& self.attributes.valid()
        &&& self.parameter_default_values.valid()
        &&& self.ports.valid()
        &&& self.cells.valid()
        &&& self.memories.valid()
        &&& self.netnames.valid()
    }

    open spec fn decoded(tree: JsonView) -> Result<ModuleView, NetlistErrorView> {
        match tree {
            JsonView::Object(members) => {
                let attributes = map_field::<AttributeVal>(members, "attributes"@);
                let parameter_default_values = map_field::<AttributeVal>(
                    members,
                    "parameter_default_values"@,
                );
                let ports = map_field::<Port>(members, "ports"@);
                let cells = map_field::<Cell>(members, "cells"@);
                let memories = map_field::<Memory>(members, "memories"@);
                let netnames = map_field::<Netname>(members, "netnames"@);
                if attributes is Err {
                    Err(attributes->Err_0)
                } else if parameter_default_values is Err {
                    Err(parameter_default_values->Err_0)
                } else if ports is Err {
                    Err(ports->Err_0)
                } else if cells is Err {
                    Err(cells->Err_0)
                } else if memories is Err {
                    Err(memories->Err_0)
                } else if netnames is Err {
                    Err(netnames->Err_0)
                } else {
                    Ok(
                        ModuleView {
                            attributes: attributes->Ok_0,
                            parameter_default_values: parameter_default_values->Ok_0,
                            ports: ports->Ok_0,
                            cells: cells->Ok_0,
                            memories: memories->Ok_0,
                            netnames: netnames->Ok_0,
                        },
                    )
                }
            },
            other => Err(NetlistErrorView::misfit(other.shape())),
        }
    }

    open spec fn encoded(&self) -> JsonView {
        JsonView::Object(
            seq![
                ("attributes"@, self.attributes.encoded()),
                ("parameter_default_values"@, self.parameter_default_values.encoded()),
                ("ports"@, self.ports.encoded()),
                ("cells"@, self.cells.encoded()),
                ("memories"@, self.memories.encoded()),
                ("netnames"@, self.netnames.encoded()),
            ],
        )
    }

    fn from_json(tree: &Json) -> (r: Result<Module, NetlistError>) {
        match tree {
            Json::Object(members) => {
                let attributes = match read_map::<AttributeVal>(members, "attributes") {
                    Ok(value) => value,
                    Err(e) => {
                        return Err(e);
                    },
                };
                let parameter_default_values = match read_map::<AttributeVal>(
                    members,
                    "parameter_default_values",
                ) {
                    Ok(value) => value,
                    Err(e) => {
                        return Err(e);
                    },
                };
                let ports = match read_map::<Port>(members, "ports") {
                    Ok(value) => value,
                    Err(e) => {
                        return Err(e);
                    },
                };
                let cells = match read_map::<Cell>(members, "cells") {
                    Ok(value) => value,
                    Err(e) => {
                        return Err(e);
                    },
                };
                let memories = match read_map::<Memory>(members, "memories") {
                    Ok(value) => value,
                    Err(e) => {
                        return Err(e);
                    },
                };
                let netnames = match read_map::<Netname>(members, "netnames") {
                    Ok(value) => value,
                    Err(e) => {
                        return Err(e);
                    },
                };
                Ok(
                    Module {
                        attributes,
                        parameter_default_values,
                        ports,
                        cells,
                        memories,
                        netnames,
                    },
                )
            },
            other => Err(NetlistError::misfit(other.shape())),
        }
    }

    fn to_json(&self) -> (tree: Json) {
        let mut members: Vec<(String, Json)> = Vec::new();
        members.push(("attributes".to_owned(), self.attributes.to_json()));
        members.push(
            ("parameter_default_values".to_owned(), self.parameter_default_values.to_json()),
        );
        members.push(("ports".to_owned(), self.ports.to_json()));
        members.push(("cells".to_owned(), self.cells.to_json()));
        members.push(("memories".to_owned(), self.memories.to_json()));
        members.push(("netnames".to_owned(), self.netnames.to_json()));
        proof {
            lemma_module_names();
            let written = self.encoded()->Object_0;
            assert(member_views(members@) =~= written);
            assert(pair_names(written) =~= module_names());
        }
        Json::Object(members)
    }

    proof fn lemma_round_trip(&self) {
        lemma_module_names();
        let written = self.encoded()->Object_0;
        assert(pair_names(written) =~= module_names());
        lemma_pairs_map_distinct(written, 0);
        lemma_occurrences_distinct(written, "attributes"@);
        lemma_pairs_map_distinct(written, 1);
        lemma_occurrences_distinct(written, "parameter_default_values"@);
        lemma_pairs_map_distinct(written, 2);
        lemma_occurrences_distinct(written, "ports"@);
        lemma_pairs_map_distinct(written, 3);
        lemma_occurrences_distinct(written, "cells"@);
        lemma_pairs_map_distinct(written, 4);
        lemma_occurrences_distinct(written, "memories"@);
        lemma_pairs_map_distinct(written, 5);
        lemma_occurrences_distinct(written, "netnames"@);
        self.attributes.lemma_round_trip();
        self.parameter_default_values.lemma_round_trip();
        self.ports.lemma_round_trip();
        self.cells.lemma_round_trip();
        self.memories.lemma_round_trip();
        self.netnames.lemma_round_trip();
    }

    proof fn lemma_encoded_by_model(&self, other: &Self) {
        self.attributes.lemma_encoded_by_model(&other.attributes);
        self.parameter_default_values.lemma_encoded_by_model(&other.parameter_default_values);
        self.ports.lemma_encoded_by_model(&other.ports);
        self.cells.lemma_encoded_by_model(&other.cells);
        self.memories.lemma_encoded_by_model(&other.memories);
        self.netnames.lemma_encoded_by_model(&other.netnames);
    }
}

/// Represents an entire .json file used by Yosys
#[derive(Clone, Debug, PartialEq, Eq)]
pub struct Netlist {
    /// The program that created this file.
    pub creator: String,
    /// A map from module names to module objects contained in this .json file
    pub modules: NameMap<Module>,
}

/// The mathematical model of a [`Netlist`].
pub struct NetlistView {
    pub creator: Seq<char>,
    pub modules: Map<Seq<char>, ModuleView>,
}

impl View for Netlist {
    type V = NetlistView;

    open spec fn view(&self) -> NetlistView {
        NetlistView {
            creator: self.creator@,
            modules: self.modules.model(),
        }
    }
}

impl Default for Netlist {
    /// The netlist without creator and without modules.
    fn default() -> (netlist: Netlist)
        ensures
            netlist.valid(),
            netlist@ == (NetlistView { creator: Seq::empty(), modules: Map::empty() }),
    {
        proof {
            reveal_strlit("");
            assert(""@ =~= Seq::<char>::empty());
        }
        Netlist::new("")
    }
}

/// The member names of a netlist, in the order in which they are written.
pub open spec fn netlist_names() -> Seq<Seq<char>> {
    seq![
        "creator"@,
        "modules"@,
    ]
}

/// The member names of a netlist are distinct.
pub proof fn lemma_netlist_names()
    ensures
        distinct(netlist_names()),
{
    reveal_strlit("creator");
    reveal_strlit("modules");
    assert("creator"@[0] == 'c');
    assert("modules"@[0] == 'm');
}

impl Codec for Netlist {
    type Model = NetlistView;

    open spec fn model(&self) -> NetlistView {
        self@
    }

    open spec fn valid(&self) -> bool {
        &&& self.modules.valid()
    }

    open spec fn decoded(tree: JsonView) -> Result<NetlistView, NetlistErrorView> {
        match tree {
            JsonView::Object(members) => {
                let creator = text_field(members, "creator"@);
                let modules = map_field::<Module>(members, "modules"@);
                if creator is Err {
                    Err(creator->Err_0)
                } else if modules is Err {
                    Err(modules->Err_0)
                } else {
                    Ok(
                        NetlistView {
                            creator: creator->Ok_0,
                            modules: modules->Ok_0,
                        },
                    )
                }
            },
            other => Err(NetlistErrorView::misfit(other.shape())),
        }
    }

    open spec fn encoded(&self) -> JsonView {
        JsonView::Object(
            seq![
                ("creator"@, self.creator.encoded()),
                ("modules"@, self.modules.encoded()),
            ],
        )
    }

    fn from_json(tree: &Json) -> (r: Result<Netlist, NetlistError>) {
        match tree {
            Json::Object(members) => {
                let creator = match read_text(members, "creator") {
                    Ok(value) => value,
                    Err(e) => {
                        return Err(e);
                    },
                };
                let modules = match read_map::<Module>(members, "modules") {
                    Ok(value) => value,
                    Err(e) => {
                        return Err(e);
                    },
                };
                Ok(Netlist { creator, modules })
            },
            other => Err(NetlistError::misfit(other.shape())),
        }
    }

    fn to_json(&self) -> (tree: Json) {
        let mut members: Vec<(String, Json)> = Vec::new();
        members.push(("creator".to_owned(), self.creator.to_json()));
        members.push(("modules".to_owned(), self.modules.to_json()));
        proof {
            lemma_netlist_names();
            let written = self.encoded()->Object_0;
            assert(member_views(members@) =~= written);
            assert(pair_names(written) =~= netlist_names());
        }
        Json::Object(members)
    }

    proof fn lemma_round_trip(&self) {
        lemma_netlist_names();
        let written = self.encoded()->Object_0;
        assert(pair_names(written) =~= netlist_names());
        lemma_pairs_map_distinct(written, 0);
        lemma_occurrences_distinct(written, "creator"@);
        lemma_pairs_map_distinct(written, 1);
        lemma_occurrences_distinct(written, "modules"@);
        self.creator.lemma_round_trip();
        self.modules.lemma_round_trip();
    }

    proof fn lemma_encoded_by_model(&self, other: &Self) {
        self.creator.lemma_encoded_by_model(&other.creator);
        self.modules.lemma_encoded_by_model(&other.modules);
    }
}

impl Netlist {
    /// Create a new netlist
    pub fn new(creator: &str) -> (netlist: Netlist)
        ensures
            netlist@ == (NetlistView { creator: creator@, modules: Map::empty() }),
            netlist.modules.pairs().len() == 0,
            netlist.valid(),
    {
        let modules: NameMap<Module> = NameMap::new();
        proof {
            assert(modules.model() =~= Map::<Seq<char>, ModuleView>::empty());
        }
        Netlist { creator: creator.to_owned(), modules }
    }

    /// Reads a netlist from a JSON tree.
    pub fn decode(tree: &Json) -> (r: Result<Netlist, NetlistError>)
        ensures
            match r {
                Ok(netlist) => netlist.valid() && Netlist::decoded(tree@) == Ok::<
                    NetlistView,
                    NetlistErrorView,
                >(netlist@),
                Err(e) => Netlist::decoded(tree@) == Err::<NetlistView, NetlistErrorView>(e@),
            },
    {
        Netlist::from_json(tree)
    }

    /// Writes the netlist as a JSON tree, in canonical form.
    pub fn encode(&self) -> (tree: Json)
        ensures
            tree@ == self.encoded(),
            tree@.canonical(),
    {
        self.to_json()
    }

    /// Read netlist data from a slice containing the bytes from a Yosys .json file
    pub fn from_slice(input: &[u8]) -> (r: Result<Netlist, NetlistError>)
        ensures
            match parsed_tree(input@) {
                None => r matches Err(e) && e is MalformedJson,
                Some(tree) => match r {
                    Ok(netlist) => netlist.valid() && Netlist::decoded(tree) == Ok::<
                        NetlistView,
                        NetlistErrorView,
                    >(netlist@),
                    Err(e) => Netlist::decoded(tree) == Err::<NetlistView, NetlistErrorView>(e@),
                },
            },
    {
        match parse_value(input) {
            Ok(value) => {
                let tree = lift_value(&value);
                Netlist::decode(&tree)
            },
            Err(e) => Err(NetlistError::MalformedJson { message: error_text(&e) }),
        }
    }

    /// Serialize to a String. Every netlist can be written.
    pub fn to_string(&self) -> (r: Result<String, NetlistError>)
        ensures
            r matches Ok(text) && text@ == rendered_text(self.encoded()),
    {
        let tree = self.encode();
        let value = lower_value(&tree);
        match render_value(&value) {
            Ok(text) => Ok(text),
            Err(e) => Err(NetlistError::EncodeFailure { message: error_text(&e) }),
        }
    }
}

} // verus!
