//! The values of single wires, and the directions of ports.

use crate::codec::Codec;
use crate::error::{NetlistError, NetlistErrorView};
use crate::json::{Json, JsonNumber, JsonView, NumberView, Shape};
use crate::name_order::same_name;
use vstd::prelude::*;
use vstd::string::*;

verus! {

/// Legal values for the direction of a port on a module
#[derive(Clone, Copy, Debug, PartialEq, Eq, Hash)]
pub enum PortDirection {
    Input,
    Output,
    InOut,
}

/// Special constant bit values
#[derive(Clone, Copy, Debug, PartialEq, Eq, Hash)]
pub enum SpecialBit {
    /// Constant 0
    _0,
    /// Constant 1
    _1,
    /// Constant X (invalid)
    X,
    /// Constant Z (tri-state)
    Z,
}

/// A number representing a single bit of a wire
#[derive(Clone, Copy, Debug, PartialEq, Eq, Hash)]
pub enum BitVal {
    /// An actual signal number
    N(usize),
    /// A special constant value
    S(SpecialBit),
}

impl SpecialBit {
    /// The string that writes this constant.
    pub open spec fn symbol(self) -> Seq<char> {
        match self {
            SpecialBit::_0 => "0"@,
            SpecialBit::_1 => "1"@,
            SpecialBit::X => "x"@,
            SpecialBit::Z => "z"@,
        }
    }

    /// The constant that a string writes, if it writes one.
    pub open spec fn of_symbol(s: Seq<char>) -> Option<SpecialBit> {
        if s == "0"@ {
            Some(SpecialBit::_0)
        } else if s == "1"@ {
            Some(SpecialBit::_1)
        } else if s == "x"@ {
            Some(SpecialBit::X)
        } else if s == "z"@ {
            Some(SpecialBit::Z)
        } else {
            None
        }
    }

    /// Each constant is the one that its own string writes.
    pub proof fn lemma_symbol_read_back(self)
        ensures
            SpecialBit::of_symbol(self.symbol()) == Some(self),
    {
        reveal_strlit("0");
        reveal_strlit("1");
        reveal_strlit("x");
        reveal_strlit("z");
        assert("0"@[0] == '0');
        assert("1"@[0] == '1');
        assert("x"@[0] == 'x');
        assert("z"@[0] == 'z');
    }

    /// Reads a constant from the string that writes it.
    pub fn from_symbol(s: &str) -> (r: Option<SpecialBit>)
        ensures
            r == SpecialBit::of_symbol(s@),
    {
        if same_name(s, "0") {
            Some(SpecialBit::_0)
        } else if same_name(s, "1") {
            Some(SpecialBit::_1)
        } else if same_name(s, "x") {
            Some(SpecialBit::X)
        } else if same_name(s, "z") {
            Some(SpecialBit::Z)
        } else {
            None
        }
    }

    /// The string that writes this constant.
    pub fn to_symbol(&self) -> (s: &'static str)
        ensures
            s@ == self.symbol(),
    {
        match self {
            SpecialBit::_0 => "0",
            SpecialBit::_1 => "1",
            SpecialBit::X => "x",
            SpecialBit::Z => "z",
        }
    }
}

impl Codec for BitVal {
    type Model = BitVal;

    open spec fn model(&self) -> BitVal {
        *self
    }

    open spec fn valid(&self) -> bool {
        true
    }

    open spec fn decoded(tree: JsonView) -> Result<BitVal, NetlistErrorView> {
        match tree {
            JsonView::Number(number) => match number.count() {
                Ok(n) => Ok(BitVal::N(n)),
                Err(e) => Err(e),
            },
            JsonView::String(s) => match SpecialBit::of_symbol(s) {
                Some(bit) => Ok(BitVal::S(bit)),
                None => Err(NetlistErrorView::unknown_symbol(s)),
            },
            other => Err(NetlistErrorView::misfit(other.shape())),
        }
    }

    open spec fn encoded(&self) -> JsonView {
        match self {
            BitVal::N(n) => JsonView::Number(NumberView::Unsigned(*n as u64)),
            BitVal::S(bit) => JsonView::String(bit.symbol()),
        }
    }

    fn from_json(tree: &Json) -> (r: Result<BitVal, NetlistError>) {
        match tree {
            Json::Number(number) => match number.to_count() {
                Ok(n) => Ok(BitVal::N(n)),
                Err(e) => Err(e),
            },
            Json::String(s) => match SpecialBit::from_symbol(s.as_str()) {
                Some(bit) => Ok(BitVal::S(bit)),
                None => Err(NetlistError::unknown_symbol(s.clone())),
            },
            other => Err(NetlistError::misfit(other.shape())),
        }
    }

    fn to_json(&self) -> (tree: Json) {
        match self {
            BitVal::N(n) => Json::Number(JsonNumber::unsigned(*n as u64)),
            BitVal::S(bit) => Json::String(bit.to_symbol().to_owned()),
        }
    }

    proof fn lemma_round_trip(&self) {
        match self {
            BitVal::N(_) => {},
            BitVal::S(bit) => {
                bit.lemma_symbol_read_back();
            },
        }
    }

    proof fn lemma_encoded_by_model(&self, other: &Self) {
    }
}

impl PortDirection {
    /// The string that writes this direction.
    pub open spec fn symbol(self) -> Seq<char> {
        match self {
            PortDirection::Input => "input"@,
            PortDirection::Output => "output"@,
            PortDirection::InOut => "inout"@,
        }
    }

    /// The direction that a string writes, if it writes one.
    pub open spec fn of_symbol(s: Seq<char>) -> Option<PortDirection> {
        if s == "input"@ {
            Some(PortDirection::Input)
        } else if s == "output"@ {
            Some(PortDirection::Output)
        } else if s == "inout"@ {
            Some(PortDirection::InOut)
        } else {
            None
        }
    }

    /// Each direction is the one that its own string writes.
    pub proof fn lemma_symbol_read_back(self)
        ensures
            PortDirection::of_symbol(self.symbol()) == Some(self),
    {
        reveal_strlit("input");
        reveal_strlit("output");
        reveal_strlit("inout");
        assert("input"@[0] == 'i' && "input"@[2] == 'p');
        assert("output"@[0] == 'o');
        assert("inout"@[0] == 'i' && "inout"@[2] == 'o');
    }

    /// Reads a direction from the string that writes it.
    pub fn from_symbol(s: &str) -> (r: Option<PortDirection>)
        ensures
            r == PortDirection::of_symbol(s@),
    {
        if same_name(s, "input") {
            Some(PortDirection::Input)
        } else if same_name(s, "output") {
            Some(PortDirection::Output)
        } else if same_name(s, "inout") {
            Some(PortDirection::InOut)
        } else {
            None
        }
    }

    /// The string that writes this direction.
    pub fn to_symbol(&self) -> (s: &'static str)
        ensures
            s@ == self.symbol(),
    {
        match self {
            PortDirection::Input => "input",
            PortDirection::Output => "output",
            PortDirection::InOut => "inout",
        }
    }
}

impl Codec for PortDirection {
    type Model = PortDirection;

    open spec fn model(&self) -> PortDirection {
        *self
    }

    open spec fn valid(&self) -> bool {
        true
    }

    open spec fn decoded(tree: JsonView) -> Result<PortDirection, NetlistErrorView> {
        match tree {
            JsonView::String(s) => match PortDirection::of_symbol(s) {
                Some(direction) => Ok(direction),
                None => Err(NetlistErrorView::misfit(Shape::String)),
            },
            other => Err(NetlistErrorView::misfit(other.shape())),
        }
    }

    open spec fn encoded(&self) -> JsonView {
        JsonView::String(self.symbol())
    }

    fn from_json(tree: &Json) -> (r: Result<PortDirection, NetlistError>) {
        match tree {
            Json::String(s) => match PortDirection::from_symbol(s.as_str()) {
                Some(direction) => Ok(direction),
                None => Err(NetlistError::misfit(Shape::String)),
            },
            other => Err(NetlistError::misfit(other.shape())),
        }
    }

    fn to_json(&self) -> (tree: Json) {
        Json::String(self.to_symbol().to_owned())
    }

    proof fn lemma_round_trip(&self) {
        self.lemma_symbol_read_back();
    }

    proof fn lemma_encoded_by_model(&self, other: &Self) {
    }
}

} // verus!
