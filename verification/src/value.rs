//! Runtime values.

use vstd::prelude::*;
use crate::number::{number_text, Number};
use crate::text::push_str;

verus! {

/// A value of the language.
#[derive(Debug, PartialEq, Eq)]
pub enum Value {
    Nil,
    Bool(bool),
    Number(Number),
    Str(String),
}

/// The mathematical model of a `Value`.
pub enum SpecValue {
    Nil,
    Bool(bool),
    Number(Number),
    Str(Seq<char>),
}

impl View for Value {
    type V = SpecValue;

    open spec fn view(&self) -> SpecValue {
        match self {
            Value::Nil => SpecValue::Nil,
            Value::Bool(b) => SpecValue::Bool(*b),
            Value::Number(n) => SpecValue::Number(*n),
            Value::Str(s) => SpecValue::Str(s@),
        }
    }
}

impl Clone for Value {
    fn clone(&self) -> (r: Value)
        ensures
            r == *self,
    {
        match self {
            Value::Nil => Value::Nil,
            Value::Bool(b) => Value::Bool(*b),
            Value::Number(n) => Value::Number(*n),
            Value::Str(s) => Value::Str(s.clone()),
        }
    }
}

/// Truthiness: `nil` and `false` are falsey, every other value is truthy.
/// Zero and the empty string are truthy.
pub open spec fn truthy(v: SpecValue) -> bool {
    match v {
        SpecValue::Nil => false,
        SpecValue::Bool(b) => b,
        _ => true,
    }
}

/// Equality of values: two values of different types are never equal.
pub open spec fn values_equal(a: SpecValue, b: SpecValue) -> bool {
    a == b
}

/// The text that printing and concatenation use for a value.
pub open spec fn value_text(v: SpecValue) -> Seq<char> {
    match v {
        SpecValue::Nil => seq!['n', 'i', 'l'],
        SpecValue::Bool(true) => seq!['t', 'r', 'u', 'e'],
        SpecValue::Bool(false) => seq!['f', 'a', 'l', 's', 'e'],
        SpecValue::Number(n) => number_text(n.units as int),
        SpecValue::Str(s) => s,
    }
}

impl Value {
    /// Whether the value counts as true in a condition.
    pub fn is_truthy(&self) -> (b: bool)
        ensures
            b == truthy(self@),
    {
        match self {
            Value::Nil => false,
            Value::Bool(b) => *b,
            _ => true,
        }
    }

    /// Whether two values are equal.
    pub fn equals(&self, other: &Value) -> (b: bool)
        ensures
            b == values_equal(self@, other@),
    {
        match (self, other) {
            (Value::Nil, Value::Nil) => true,
            (Value::Bool(a), Value::Bool(b)) => *a == *b,
            (Value::Number(a), Value::Number(b)) => a.units == b.units,
            (Value::Str(a), Value::Str(b)) => *a == *b,
            _ => false,
        }
    }

    /// Appends the text of the value to `out`.
    pub fn push_text(&self, out: &mut Vec<char>)
        ensures
            final(out)@ == old(out)@ + value_text(self@),
    {
        match self {
            Value::Nil => {
                out.push('n');
                out.push('i');
                out.push('l');
                assert(out@ =~= old(out)@ + seq!['n', 'i', 'l']);
            },
            Value::Bool(true) => {
                out.push('t');
                out.push('r');
                out.push('u');
                out.push('e');
                assert(out@ =~= old(out)@ + seq!['t', 'r', 'u', 'e']);
            },
            Value::Bool(false) => {
                out.push('f');
                out.push('a');
                out.push('l');
                out.push('s');
                out.push('e');
                assert(out@ =~= old(out)@ + seq!['f', 'a', 'l', 's', 'e']);
            },
            Value::Number(n) => {
                n.push_text(out);
            },
            Value::Str(s) => {
                push_str(s.as_str(), out);
            },
        }
    }
}

/// Only `nil` and `false` are falsey: every number, zero too, and every
/// string, the empty one too, is truthy.
pub proof fn lemma_truthiness(v: SpecValue)
    ensures
        truthy(v) <==> v != SpecValue::Nil && v != SpecValue::Bool(false),
        v is Number ==> truthy(v),
        v is Str ==> truthy(v),
{
}

} // verus!
