//! The portable capability.
//!
//! A type is portable when it can cross a location boundary: it embeds into
//! the [`Value`] universe and can be recovered from it.  Recovery inverts
//! embedding at the level of images, so a portable value survives a message
//! round trip unchanged.

use vstd::prelude::*;

use crate::value::{view_of, ValModel, Value};

verus! {

/// A value that can be used in a choreography: encodable to and decodable
/// from the portable value universe.
pub trait Portable: Sized {
    /// The image of the value in the portable universe.
    spec fn spec_value(&self) -> ValModel;

    /// Embeds the value.
    fn to_value(&self) -> (r: Value)
        ensures
            view_of(r) == self.spec_value(),
    ;

    /// Recovers a value from its embedding; what is recovered has exactly
    /// the given image.
    fn from_value(v: &Value) -> (r: Option<Self>)
        ensures
            r matches Some(x) ==> x.spec_value() == view_of(*v),
    ;
}

/// Anything portable can be used in a choreography.
pub trait ChoreographicValue: Portable {

}

impl<T: Portable> ChoreographicValue for T {

}

impl Portable for bool {
    open spec fn spec_value(&self) -> ValModel {
        ValModel::B(*self)
    }

    fn to_value(&self) -> (r: Value) {
        Value::B(*self)
    }

    fn from_value(v: &Value) -> (r: Option<bool>) {
        match v {
            Value::B(b) => Some(*b),
            _ => None,
        }
    }
}

impl Portable for i64 {
    open spec fn spec_value(&self) -> ValModel {
        ValModel::I(*self as int)
    }

    fn to_value(&self) -> (r: Value) {
        Value::I(*self)
    }

    fn from_value(v: &Value) -> (r: Option<i64>) {
        match v {
            Value::I(i) => Some(*i),
            _ => None,
        }
    }
}

impl Portable for String {
    open spec fn spec_value(&self) -> ValModel {
        ValModel::S(self@)
    }

    fn to_value(&self) -> (r: Value) {
        Value::S(self.clone())
    }

    fn from_value(v: &Value) -> (r: Option<String>) {
        match v {
            Value::S(s) => Some(s.clone()),
            _ => None,
        }
    }
}

impl Portable for crate::kvs::Request {
    open spec fn spec_value(&self) -> ValModel {
        crate::kvs::Request::spec_value(*self)
    }

    fn to_value(&self) -> (r: Value) {
        crate::kvs::Request::to_value(self)
    }

    fn from_value(v: &Value) -> (r: Option<crate::kvs::Request>) {
        proof {
            reveal_with_fuel(view_of, 6);
        }
        match v {
            Value::Pair(tag, payload) => match &**tag {
                Value::B(true) => match &**payload {
                    Value::Pair(k, v2) => match (&**k, &**v2) {
                        (Value::S(ks), Value::S(vs)) => Some(
                            crate::kvs::Request::Put(ks.clone(), vs.clone()),
                        ),
                        _ => None,
                    },
                    _ => None,
                },
                Value::B(false) => match &**payload {
                    Value::S(ks) => Some(crate::kvs::Request::Get(ks.clone())),
                    _ => None,
                },
                _ => None,
            },
            _ => None,
        }
    }
}

} // verus!
