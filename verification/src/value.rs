//! The portable data model.
//!
//! Every piece of data that a choreography moves between participants is a
//! `Value`: a small dynamically-typed universe closed under pairing and
//! options, rich enough to carry the payloads of the example protocols
//! (requests, responses, titles, prices, dates).  Contracts never speak of
//! `Value` directly but of its mathematical image `ValModel`, in which strings
//! are character sequences and integers are unbounded.

use vstd::prelude::*;

verus! {

/// A portable value: data that can cross a location boundary.
#[derive(Debug, PartialEq)]
pub enum Value {
    /// The unit value.
    Unit,
    /// A boolean.
    B(bool),
    /// A signed integer.
    I(i64),
    /// A string.
    S(String),
    /// An ordered pair; also used to build lists as nested pairs ending in `Unit`.
    Pair(Box<Value>, Box<Value>),
    /// An optional value.
    Opt(Option<Box<Value>>),
}

/// The mathematical image of a `Value`, used throughout the contracts.
pub enum ValModel {
    /// Image of `Value::Unit`.
    Unit,
    /// Image of `Value::B`.
    B(bool),
    /// Image of `Value::I`, as an unbounded integer.
    I(int),
    /// Image of `Value::S`, as a character sequence.
    S(Seq<char>),
    /// Image of `Value::Pair`.
    Pair(Box<ValModel>, Box<ValModel>),
    /// Image of `Value::Opt`.
    Opt(Option<Box<ValModel>>),
}

/// The image of a value in the model: strings become character sequences,
/// machine integers become unbounded integers.
pub open spec fn view_of(v: Value) -> ValModel
    decreases v,
{
    match v {
        Value::Unit => ValModel::Unit,
        Value::B(b) => ValModel::B(b),
        Value::I(i) => ValModel::I(i as int),
        Value::S(s) => ValModel::S(s@),
        Value::Pair(a, b) => ValModel::Pair(Box::new(view_of(*a)), Box::new(view_of(*b))),
        Value::Opt(o) => match o {
            Option::None => ValModel::Opt(Option::None),
            Option::Some(b) => ValModel::Opt(Option::Some(Box::new(view_of(*b)))),
        },
    }
}

impl Value {
    /// A deep copy whose image equals the original's.
    pub fn dup(&self) -> (r: Value)
        ensures
            view_of(r) == view_of(*self),
        decreases *self,
    {
        match self {
            Value::Unit => Value::Unit,
            Value::B(b) => Value::B(*b),
            Value::I(i) => Value::I(*i),
            Value::S(s) => Value::S(s.clone()),
            Value::Pair(a, b) => Value::Pair(Box::new(a.dup()), Box::new(b.dup())),
            Value::Opt(o) => match o {
                Option::None => Value::Opt(Option::None),
                Option::Some(b) => Value::Opt(Option::Some(Box::new(b.dup()))),
            },
        }
    }
}

/// Whether a value, used as the guard of a branch, selects the first branch:
/// only the boolean `true` does.
pub open spec fn spec_guard(m: ValModel) -> bool {
    m == ValModel::B(true)
}

/// Evaluates a branch guard.
pub fn guard_of(v: &Value) -> (b: bool)
    ensures
        b == spec_guard(view_of(*v)),
{
    match v {
        Value::B(x) => *x,
        _ => false,
    }
}

} // verus!
