//! Dynamically typed wire scalars, statically tagged values, and the one
//! coercion from the first to the second.
use vstd::prelude::*;
use crate::column::TypeTag;
use crate::text::{Decimal, decimal_text, int_text, parse_decimal, parse_int};

verus! {

/// A scalar as the wire protocol delivers it. A floating-point value
/// travels as its decimal text.
#[derive(Clone, Debug, PartialEq)]
pub enum WireValue {
    Text(String),
    Int(i64),
    Float(String),
    Bool(bool),
}

/// A value decoded for a column; its variant is the column's type tag.
#[derive(Clone, Debug, PartialEq)]
pub enum Value {
    Text(String),
    Int(i64),
    Float(Decimal),
    Bool(bool),
}

/// The type tag that a decoded value carries.
pub open spec fn tag_of(v: Value) -> TypeTag {
    match v {
        Value::Text(_) => TypeTag::Text,
        Value::Int(_) => TypeTag::Int,
        Value::Float(_) => TypeTag::Float,
        Value::Bool(_) => TypeTag::Bool,
    }
}

/// How a wire value reads as a value of type `tag`, if it does:
/// text stays text; an integer comes as an integer or as its exact decimal
/// text; a float comes as a float or as text, in fixed-point notation;
/// a boolean comes as a boolean, or as 0 or 1, as an integer or as text.
pub open spec fn coerce(tag: TypeTag, w: WireValue) -> Option<Value> {
    match tag {
        TypeTag::Text => match w {
            WireValue::Text(s) => Some(Value::Text(s)),
            _ => None,
        },
        TypeTag::Int => match w {
            WireValue::Int(i) => Some(Value::Int(i)),
            WireValue::Text(s) => match int_text(s@) {
                Some(i) => Some(Value::Int(i)),
                None => None,
            },
            _ => None,
        },
        TypeTag::Float => match w {
            WireValue::Float(s) | WireValue::Text(s) => match decimal_text(s@) {
                Some(d) => Some(Value::Float(d)),
                None => None,
            },
            _ => None,
        },
        TypeTag::Bool => match w {
            WireValue::Bool(b) => Some(Value::Bool(b)),
            WireValue::Int(i) => if i == 0 {
                Some(Value::Bool(false))
            } else if i == 1 {
                Some(Value::Bool(true))
            } else {
                None
            },
            WireValue::Text(s) => if s@ == seq!['0'] {
                Some(Value::Bool(false))
            } else if s@ == seq!['1'] {
                Some(Value::Bool(true))
            } else {
                None
            },
            _ => None,
        },
    }
}

/// A wire value that reads as type `tag` reads as a value of that type, and
/// of no other.
pub proof fn lemma_coerce_keeps_tag(tag: TypeTag, w: WireValue)
    ensures
        coerce(tag, w) matches Some(v) ==> tag_of(v) == tag,
{
}

fn is_single(s: &String, c: char) -> (r: bool)
    ensures
        r == (s@ == seq![c]),
{
    let t = s.as_str();
    if t.unicode_len() != 1 {
        return false;
    }
    let r = t.get_char(0) == c;
    assert(r ==> t@ =~= seq![c]);
    r
}

/// Reads the wire value `w` as a value of type `tag`.
pub fn coerce_value(tag: TypeTag, w: &WireValue) -> (r: Option<Value>)
    ensures
        r == coerce(tag, *w),
        r matches Some(v) ==> tag_of(v) == tag,
{
    match tag {
        TypeTag::Text => match w {
            WireValue::Text(s) => Some(Value::Text(s.clone())),
            _ => None,
        },
        TypeTag::Int => match w {
            WireValue::Int(i) => Some(Value::Int(*i)),
            WireValue::Text(s) => match parse_int(s.as_str()) {
                Some(i) => Some(Value::Int(i)),
                None => None,
            },
            _ => None,
        },
        TypeTag::Float => match w {
            WireValue::Float(s) | WireValue::Text(s) => match parse_decimal(s.as_str()) {
                Some(d) => Some(Value::Float(d)),
                None => None,
            },
            _ => None,
        },
        TypeTag::Bool => match w {
            WireValue::Bool(b) => Some(Value::Bool(*b)),
            WireValue::Int(i) => if *i == 0 {
                Some(Value::Bool(false))
            } else if *i == 1 {
                Some(Value::Bool(true))
            } else {
                None
            },
            WireValue::Text(s) => if is_single(s, '0') {
                Some(Value::Bool(false))
            } else if is_single(s, '1') {
                Some(Value::Bool(true))
            } else {
                None
            },
            _ => None,
        },
    }
}

} // verus!
