//! A typed model of the netlists that Yosys writes as JSON, with a codec
//! between the model and JSON text.

pub mod attribute;
pub mod bits;
pub mod codec;
pub mod error;
pub mod json;
pub mod laws;
pub mod name_map;
pub mod name_order;
pub mod netlist;
pub mod objects;
pub mod records;
pub mod text;

pub use attribute::{AttributeVal, AttributeValView};
pub use bits::{BitVal, PortDirection, SpecialBit};
pub use codec::Codec;
pub use error::{NetlistError, Step};
pub use json::{Json, JsonNumber, Shape};
pub use name_map::NameMap;
pub use netlist::{Module, Netlist};
pub use records::{Cell, Memory, Netname, Port};
