//! Runtime values of the interpreted language.

use vstd::prelude::*;
use crate::ieee32::real_text_of;
use crate::text::dec_str;
use crate::ieee32::real_text;
use crate::text::u32_dec;
use vstd::string::*;

verus! {

/// A runtime value: a real (carried as its IEEE-754 binary32 bit
/// pattern), an integer, a string, a boolean, or the distinguished nil.
pub enum Value {
    RealVal(u32),
    IntVal(u32),
    StrVal(String),
    BoolVal(bool),
    NilVal,
}

/// The mathematical model of a runtime value.
pub enum ValV {
    Real(u32),
    Int(u32),
    Str(Seq<char>),
    Bool(bool),
    Nil,
}

impl View for Value {
    type V = ValV;

    open spec fn view(&self) -> ValV {
        match self {
            Value::RealVal(b) => ValV::Real(*b),
            Value::IntVal(i) => ValV::Int(*i),
            Value::StrVal(s) => ValV::Str(s@),
            Value::BoolVal(b) => ValV::Bool(*b),
            Value::NilVal => ValV::Nil,
        }
    }
}

impl Clone for Value {
    fn clone(&self) -> (r: Self)
        ensures
            r@ == self@,
    {
        match self {
            Value::RealVal(b) => Value::RealVal(*b),
            Value::IntVal(i) => Value::IntVal(*i),
            Value::StrVal(s) => Value::StrVal(s.clone()),
            Value::BoolVal(b) => Value::BoolVal(*b),
            Value::NilVal => Value::NilVal,
        }
    }
}

/// The dynamic type of a value.
pub enum ValueKind {
    RealKind,
    IntKind,
    StrKind,
    BoolKind,
    NilKind,
}

pub open spec fn kind_of(v: ValV) -> ValueKind {
    match v {
        ValV::Real(_) => ValueKind::RealKind,
        ValV::Int(_) => ValueKind::IntKind,
        ValV::Str(_) => ValueKind::StrKind,
        ValV::Bool(_) => ValueKind::BoolKind,
        ValV::Nil => ValueKind::NilKind,
    }
}

/// The textual form of a value, as the print statement writes it:
/// reals and integers in decimal, booleans as `true`/`false`, nil as
/// `nil`, strings as-is without quoting.
pub open spec fn value_text(v: ValV) -> Seq<char> {
    match v {
        ValV::Real(b) => real_text_of(b),
        ValV::Int(i) => dec_str(i as nat),
        ValV::Str(s) => s,
        ValV::Bool(b) => if b {
            "true"@
        } else {
            "false"@
        },
        ValV::Nil => "nil"@,
    }
}

impl Value {
    /// Renders this value as the print statement writes it.
    pub fn to_text(&self) -> (r: String)
        ensures
            r@ == value_text(self@),
    {
        match self {
            Value::RealVal(b) => real_text(*b),
            Value::IntVal(i) => u32_dec(*i),
            Value::StrVal(s) => s.clone(),
            Value::BoolVal(b) => if *b {
                "true".to_owned()
            } else {
                "false".to_owned()
            },
            Value::NilVal => "nil".to_owned(),
        }
    }
}

} // verus!
