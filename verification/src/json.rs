//! A plain model of JSON values.
//!
//! Request bodies and response messages move through the library as values of
//! [`JsonValue`]. Numbers keep their exact form: integers are carried as
//! machine integers, and any other numeric literal is carried as its decimal
//! text, so the model holds no floating point.

use vstd::prelude::*;

verus! {

/// A JSON number: a signed integer, an unsigned integer, or the decimal text
/// of a number that is neither (for example `1.5` or `1e10`).
#[derive(Debug, PartialEq)]
pub enum JsonNum {
    Int(i64),
    Uint(u64),
    Dec(String),
}

/// A JSON value. Objects keep their members in source order, which fixes the
/// order of request frames built from arrays.
#[derive(Debug, PartialEq)]
pub enum JsonValue {
    Null,
    Bool(bool),
    Num(JsonNum),
    Str(String),
    Arr(Vec<JsonValue>),
    Obj(Vec<(String, JsonValue)>),
}

impl JsonValue {
    /// Whether this value is an array.
    pub fn is_array(&self) -> (r: bool)
        ensures
            r == (self is Arr),
    {
        match self {
            JsonValue::Arr(_) => true,
            _ => false,
        }
    }
}

} // verus!
