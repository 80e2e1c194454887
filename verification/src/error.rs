//! What can go wrong when a netlist is read or written.

use crate::json::Shape;
use vstd::prelude::*;

verus! {

/// One step on the way from the root of a document to a value in it.
#[derive(Clone, Debug, PartialEq, Eq)]
pub enum Step {
    /// Into the member of an object with this name.
    Key(String),
    /// Into the item of an array at this position.
    Index(usize),
}

/// The mathematical model of a [`Step`].
pub enum StepView {
    Key(Seq<char>),
    Index(int),
}

impl View for Step {
    type V = StepView;

    open spec fn view(&self) -> StepView {
        match self {
            Step::Key(name) => StepView::Key(name@),
            Step::Index(i) => StepView::Index(*i as int),
        }
    }
}

/// The steps of a path as models.
pub open spec fn path_view(path: Seq<Step>) -> Seq<StepView> {
    Seq::new(path.len(), |i: int| path[i]@)
}

/// Why a netlist could not be read or written. The paths lead from the root
/// of the document to the value at fault.
#[derive(Clone, Debug, PartialEq, Eq)]
pub enum NetlistError {
    /// The input is not a JSON document.
    MalformedJson { message: String },
    /// A value is missing, is there more than once, or is of a kind that
    /// does not fit its place; a number, where it is negative or no integer.
    SchemaViolation { path: Vec<Step>, found: Shape },
    /// A string stands where a bit is expected and is none of `0`, `1`, `x`, `z`.
    UnrecognizedBitSymbol { path: Vec<Step>, symbol: String },
    /// A number is an integer too large for the machine.
    NumericOverflow { path: Vec<Step> },
    /// The document could not be written to where it was to go.
    EncodeFailure { message: String },
}

/// The mathematical model of an [`NetlistError`].
pub enum NetlistErrorView {
    MalformedJson { message: Seq<char> },
    SchemaViolation { path: Seq<StepView>, found: Shape },
    UnrecognizedBitSymbol { path: Seq<StepView>, symbol: Seq<char> },
    NumericOverflow { path: Seq<StepView> },
    EncodeFailure { message: Seq<char> },
}

impl View for NetlistError {
    type V = NetlistErrorView;

    open spec fn view(&self) -> NetlistErrorView {
        match self {
            NetlistError::MalformedJson { message } => NetlistErrorView::MalformedJson {
                message: message@,
            },
            NetlistError::SchemaViolation { path, found } => NetlistErrorView::SchemaViolation {
                path: path_view(path@),
                found: *found,
            },
            NetlistError::UnrecognizedBitSymbol { path, symbol } => {
                NetlistErrorView::UnrecognizedBitSymbol { path: path_view(path@), symbol: symbol@ }
            },
            NetlistError::NumericOverflow { path } => NetlistErrorView::NumericOverflow {
                path: path_view(path@),
            },
            NetlistError::EncodeFailure { message } => NetlistErrorView::EncodeFailure {
                message: message@,
            },
        }
    }
}

impl NetlistErrorView {
    /// A value of the wrong kind, at the place where the error is raised.
    pub open spec fn misfit(found: Shape) -> NetlistErrorView {
        NetlistErrorView::SchemaViolation { path: Seq::empty(), found }
    }

    /// A string that writes no bit, at the place where the error is raised.
    pub open spec fn unknown_symbol(symbol: Seq<char>) -> NetlistErrorView {
        NetlistErrorView::UnrecognizedBitSymbol { path: Seq::empty(), symbol }
    }

    /// A number that does not fit, at the place where the error is raised.
    pub open spec fn overflow() -> NetlistErrorView {
        NetlistErrorView::NumericOverflow { path: Seq::empty() }
    }

    /// The same error, seen from one step further out: its path begins with
    /// `step`. An error that has no path stays as it is.
    pub open spec fn within(self, step: StepView) -> NetlistErrorView {
        match self {
            NetlistErrorView::SchemaViolation { path, found } => NetlistErrorView::SchemaViolation {
                path: seq![step] + path,
                found,
            },
            NetlistErrorView::UnrecognizedBitSymbol { path, symbol } => {
                NetlistErrorView::UnrecognizedBitSymbol { path: seq![step] + path, symbol }
            },
            NetlistErrorView::NumericOverflow { path } => NetlistErrorView::NumericOverflow {
                path: seq![step] + path,
            },
            other => other,
        }
    }
}

/// Puts a step in front of a path.
fn lengthen(path: Vec<Step>, step: Step) -> (longer: Vec<Step>)
    ensures
        path_view(longer@) == seq![step@] + path_view(path@),
{
    let mut longer = path;
    longer.insert(0, step);
    proof {
        assert(path_view(longer@) =~= seq![step@] + path_view(path@));
    }
    longer
}

impl NetlistError {
    /// The same error, seen from one step further out.
    pub fn within(self, step: Step) -> (e: NetlistError)
        ensures
            e@ == self@.within(step@),
    {
        match self {
            NetlistError::SchemaViolation { path, found } => NetlistError::SchemaViolation {
                path: lengthen(path, step),
                found,
            },
            NetlistError::UnrecognizedBitSymbol { path, symbol } => {
                NetlistError::UnrecognizedBitSymbol { path: lengthen(path, step), symbol }
            },
            NetlistError::NumericOverflow { path } => NetlistError::NumericOverflow {
                path: lengthen(path, step),
            },
            other => other,
        }
    }

    /// A value of the wrong kind, at the place where the error is raised.
    pub fn misfit(found: Shape) -> (e: NetlistError)
        ensures
            e@ == NetlistErrorView::misfit(found),
    {
        let e = NetlistError::SchemaViolation { path: Vec::new(), found };
        proof {
            assert(path_view(Seq::<Step>::empty()) =~= Seq::<StepView>::empty());
        }
        e
    }

    /// A string that writes no bit, at the place where the error is raised.
    pub fn unknown_symbol(symbol: String) -> (e: NetlistError)
        ensures
            e@ == NetlistErrorView::unknown_symbol(symbol@),
    {
        let e = NetlistError::UnrecognizedBitSymbol { path: Vec::new(), symbol };
        proof {
            assert(path_view(Seq::<Step>::empty()) =~= Seq::<StepView>::empty());
        }
        e
    }

    /// A number that does not fit, at the place where the error is raised.
    pub fn overflow() -> (e: NetlistError)
        ensures
            e@ == NetlistErrorView::overflow(),
    {
        let e = NetlistError::NumericOverflow { path: Vec::new() };
        proof {
            assert(path_view(Seq::<Step>::empty()) =~= Seq::<StepView>::empty());
        }
        e
    }
}

} // verus!
