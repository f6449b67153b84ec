//! Runtime values and their mathematical model.

use vstd::prelude::*;

use crate::numeric::{eq_bits, number_text};
use crate::numeric::{num_eq, num_to_text};

verus! {

/// A runtime value: a number (binary64, carried as bits), an owned string,
/// one of the two boolean singletons, or nil.
pub enum Object {
    Number(u64),
    String(String),
    True,
    False,
    Nil,
}

/// The mathematical model of a runtime value.
pub enum Val {
    Num(u64),
    Str(Seq<char>),
    True,
    False,
    Nil,
}

impl View for Object {
    type V = Val;

    open spec fn view(&self) -> Val {
        match self {
            Object::Number(b) => Val::Num(*b),
            Object::String(s) => Val::Str(s@),
            Object::True => Val::True,
            Object::False => Val::False,
            Object::Nil => Val::Nil,
        }
    }
}

/// Truthiness: only nil and false are falsy; every other value, including
/// `0` and the empty string, is truthy.
pub open spec fn truthy(v: Val) -> bool {
    !(v is Nil || v is False)
}

pub open spec fn bool_val(b: bool) -> Val {
    if b {
        Val::True
    } else {
        Val::False
    }
}

/// The language's `==`: structural across kinds (mismatched kinds compare
/// unequal), IEEE-754 equality on numbers, text equality on strings.
pub open spec fn val_eq(a: Val, b: Val) -> bool {
    match (a, b) {
        (Val::Num(x), Val::Num(y)) => eq_bits(x, y),
        (Val::Str(x), Val::Str(y)) => x == y,
        (Val::True, Val::True) => true,
        (Val::False, Val::False) => true,
        (Val::Nil, Val::Nil) => true,
        _ => false,
    }
}

/// The display form of a value: numbers in decimal, strings verbatim,
/// `true`/`false`/`nil` as those words.
pub open spec fn val_text(v: Val) -> Seq<char> {
    match v {
        Val::Num(b) => number_text(b),
        Val::Str(s) => s,
        Val::True => "true"@,
        Val::False => "false"@,
        Val::Nil => "nil"@,
    }
}

impl Object {
    /// An independent copy of this value.
    pub fn clone(&self) -> (r: Object)
        ensures
            r == *self,
    {
        match self {
            Object::Number(b) => Object::Number(*b),
            Object::String(s) => Object::String(s.clone()),
            Object::True => Object::True,
            Object::False => Object::False,
            Object::Nil => Object::Nil,
        }
    }

    /// Whether the language's `==` holds between this value and `other`.
    pub fn equals(&self, other: &Object) -> (r: bool)
        ensures
            r == val_eq(self@, other@),
    {
        match (self, other) {
            (Object::Number(a), Object::Number(b)) => num_eq(*a, *b),
            (Object::String(a), Object::String(b)) => *a == *b,
            (Object::True, Object::True) => true,
            (Object::False, Object::False) => true,
            (Object::Nil, Object::Nil) => true,
            _ => false,
        }
    }

    /// The display form of this value.
    pub fn to_text(&self) -> (r: String)
        ensures
            r@ == val_text(self@),
    {
        match self {
            Object::Number(b) => num_to_text(*b),
            Object::String(s) => s.clone(),
            Object::True => String::from_str("true"),
            Object::False => String::from_str("false"),
            Object::Nil => String::from_str("nil"),
        }
    }
}

} // verus!
