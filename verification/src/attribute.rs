//! Attribute and parameter values, and the two ways to read one.

use crate::codec::Codec;
use crate::error::{NetlistError, NetlistErrorView};
use crate::json::{Json, JsonNumber, JsonView, NumberView};
use vstd::prelude::*;
use vstd::string::*;

verus! {

/// The value of an attribute or parameter, as the document gives it: a
/// number or a string. Whether a string stands for a number or for text is
/// left to [`AttributeVal::to_number`] and
/// [`AttributeVal::to_string_if_string`].
#[derive(Clone, Debug, PartialEq, Eq, Hash)]
pub enum AttributeVal {
    /// Numeric attribute value
    N(usize),
    /// String attribute value
    S(String),
}

/// The mathematical model of an [`AttributeVal`].
pub enum AttributeValView {
    N(usize),
    S(Seq<char>),
}

impl View for AttributeVal {
    type V = AttributeValView;

    open spec fn view(&self) -> AttributeValView {
        match self {
            AttributeVal::N(n) => AttributeValView::N(*n),
            AttributeVal::S(s) => AttributeValView::S(s@),
        }
    }
}

/// Every character is a binary digit.
pub open spec fn is_binary(s: Seq<char>) -> bool {
    forall|i: int| 0 <= i < s.len() ==> s[i] == '0' || s[i] == '1'
}

/// The number that a string of binary digits writes, most significant digit
/// first. The empty string writes zero.
pub open spec fn binary_value(s: Seq<char>) -> nat
    decreases s.len(),
{
    if s.len() == 0 {
        0
    } else {
        2 * binary_value(s.drop_last()) + if s.last() == '1' {
            1nat
        } else {
            0nat
        }
    }
}

/// Every character is one of the four that write a constant bit.
pub open spec fn is_bit_symbols(s: Seq<char>) -> bool {
    forall|i: int| 0 <= i < s.len() ==> s[i] == '0' || s[i] == '1' || s[i] == 'x' || s[i] == 'z'
}

impl AttributeValView {
    /// The value read as a number: a number as it is; a string as the
    /// binary number that it writes, if it holds binary digits only and the
    /// number fits the machine.
    pub open spec fn number(self) -> Option<usize> {
        match self {
            AttributeValView::N(n) => Some(n),
            AttributeValView::S(s) => if is_binary(s) && binary_value(s) <= usize::MAX {
                Some(binary_value(s) as usize)
            } else {
                None
            },
        }
    }

    /// The value read as text: none for a number, for the empty string and
    /// for a string of bit symbols only; otherwise the string, without its
    /// last character if that is a space.
    pub open spec fn text(self) -> Option<Seq<char>> {
        match self {
            AttributeValView::N(_) => None,
            AttributeValView::S(s) => if s.len() == 0 || is_bit_symbols(s) {
                None
            } else if s.last() == ' ' {
                Some(s.drop_last())
            } else {
                Some(s)
            },
        }
    }
}

/// A longer string of digits writes no smaller number than its beginning.
pub proof fn lemma_binary_value_grows(s: Seq<char>, n: int)
    requires
        0 <= n <= s.len(),
    ensures
        binary_value(s.take(n)) <= binary_value(s),
    decreases s.len() - n,
{
    if n < s.len() {
        assert(s.take(n + 1).drop_last() =~= s.take(n));
        lemma_binary_value_grows(s, n + 1);
    } else {
        assert(s.take(n) =~= s);
    }
}

impl AttributeVal {
    /// Reads the value as a number.
    pub fn to_number(&self) -> (r: Option<usize>)
        ensures
            r == self@.number(),
    {
        match self {
            AttributeVal::N(n) => Some(*n),
            AttributeVal::S(s) => {
                let mut value: usize = 0;
                proof {
                    assert(s@.take(0) =~= Seq::<char>::empty());
                }
                for c in it: s.as_str().chars()
                    invariant
                        self@ == AttributeValView::S(s@),
                        it.seq() == s@,
                        is_binary(s@.take(it.index() as int)),
                        value == binary_value(s@.take(it.index() as int)),
                {
                    let ghost i = it.index() as int;
                    proof {
                        assert(s@.take(i + 1).drop_last() =~= s@.take(i));
                        assert(s@.take(i + 1).last() == c);
                    }
                    if c != '0' && c != '1' {
                        proof {
                            assert(s@[i] == c);
                        }
                        return None;
                    }
                    let digit: usize = if c == '1' {
                        1
                    } else {
                        0
                    };
                    if value > (usize::MAX - digit) / 2 {
                        proof {
                            lemma_binary_value_grows(s@, i + 1);
                        }
                        return None;
                    }
                    value = 2 * value + digit;
                }
                proof {
                    assert(s@.take(s@.len() as int) =~= s@);
                }
                Some(value)
            },
        }
    }

    /// Reads the value as text.
    pub fn to_string_if_string(&self) -> (r: Option<&str>)
        ensures
            match r {
                Some(text) => self@.text() == Some(text@),
                None => self@.text() is None,
            },
    {
        match self {
            AttributeVal::N(_) => None,
            AttributeVal::S(s) => {
                let text = s.as_str();
                let n: usize = text.unicode_len();
                if n == 0 {
                    return None;
                }
                let mut symbols_only = true;
                let mut last = ' ';
                proof {
                    assert(s@.take(0) =~= Seq::<char>::empty());
                }
                for c in it: text.chars()
                    invariant
                        it.seq() == s@,
                        n == s@.len(),
                        symbols_only == is_bit_symbols(s@.take(it.index() as int)),
                        it.index() > 0 ==> last == s@[it.index() - 1],
                {
                    let ghost i = it.index() as int;
                    proof {
                        assert(s@.take(i + 1).drop_last() =~= s@.take(i));
                        assert(s@.take(i + 1).last() == c);
                        let shorter = s@.take(i);
                        if is_bit_symbols(s@.take(i + 1)) {
                            assert forall|j: int| 0 <= j < i implies shorter[j] == '0'
                                || shorter[j] == '1' || shorter[j] == 'x' || shorter[j] == 'z' by {
                                assert(shorter[j] == s@.take(i + 1)[j]);
                            }
                        }
                    }
                    if !(c == '0' || c == '1' || c == 'x' || c == 'z') {
                        symbols_only = false;
                    }
                    last = c;
                }
                proof {
                    assert(s@.take(s@.len() as int) =~= s@);
                }
                if symbols_only {
                    None
                } else if last == ' ' {
                    Some(text.substring_char(0, n - 1))
                } else {
                    Some(text)
                }
            },
        }
    }
}

impl Codec for AttributeVal {
    type Model = AttributeValView;

    open spec fn model(&self) -> AttributeValView {
        self@
    }

    open spec fn valid(&self) -> bool {
        true
    }

    open spec fn decoded(tree: JsonView) -> Result<AttributeValView, NetlistErrorView> {
        match tree {
            JsonView::Number(number) => match number.count() {
                Ok(n) => Ok(AttributeValView::N(n)),
                Err(e) => Err(e),
            },
            JsonView::String(s) => Ok(AttributeValView::S(s)),
            other => Err(NetlistErrorView::misfit(other.shape())),
        }
    }

    open spec fn encoded(&self) -> JsonView {
        match self {
            AttributeVal::N(n) => JsonView::Number(NumberView::Unsigned(*n as u64)),
            AttributeVal::S(s) => JsonView::String(s@),
        }
    }

    fn from_json(tree: &Json) -> (r: Result<AttributeVal, NetlistError>) {
        match tree {
            Json::Number(number) => match number.to_count() {
                Ok(n) => Ok(AttributeVal::N(n)),
                Err(e) => Err(e),
            },
            Json::String(s) => Ok(AttributeVal::S(s.clone())),
            other => Err(NetlistError::misfit(other.shape())),
        }
    }

    fn to_json(&self) -> (tree: Json) {
        match self {
            AttributeVal::N(n) => Json::Number(JsonNumber::unsigned(*n as u64)),
            AttributeVal::S(s) => Json::String(s.clone()),
        }
    }

    proof fn lemma_round_trip(&self) {
    }

    proof fn lemma_encoded_by_model(&self, other: &Self) {
    }
}

} // verus!
