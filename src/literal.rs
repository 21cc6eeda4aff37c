//! Runtime values of the language.

use crate::number::{double_eq, equal};
use vstd::prelude::*;

verus! {

/// The mathematical model of a runtime value.
pub enum Value {
    Nil,
    Boolean(bool),
    /// The bit pattern of an IEEE-754 binary64.
    Number(u64),
    Str(Seq<char>),
}

/// A runtime value: a closed sum of the four kinds the language knows.
#[derive(Clone, Debug)]
pub enum Literal {
    Nil,
    Boolean(bool),
    /// The bit pattern of an IEEE-754 binary64.
    Number(u64),
    Str(String),
}

impl View for Literal {
    type V = Value;

    open spec fn view(&self) -> Value {
        match self {
            Literal::Nil => Value::Nil,
            Literal::Boolean(b) => Value::Boolean(*b),
            Literal::Number(n) => Value::Number(*n),
            Literal::Str(s) => Value::Str(s@),
        }
    }
}

/// The kind of a runtime value.
#[derive(Clone, Copy, Debug, PartialEq, Eq, Structural)]
pub enum LiteralType {
    Nil,
    False,
    True,
    Number,
    String,
}

pub open spec fn value_type(v: Value) -> LiteralType {
    match v {
        Value::Nil => LiteralType::Nil,
        Value::Boolean(b) => if b { LiteralType::True } else { LiteralType::False },
        Value::Number(_) => LiteralType::Number,
        Value::Str(_) => LiteralType::String,
    }
}

/// `nil` and `false` are falsy; every other value, `0` and `""` included, is truthy.
pub open spec fn truthy(v: Value) -> bool {
    match v {
        Value::Nil => false,
        Value::Boolean(b) => b,
        _ => true,
    }
}

/// Equality of the language: only within one kind, numbers by IEEE-754
/// equality, strings by content; values of two kinds are never equal.
pub open spec fn values_equal(a: Value, b: Value) -> bool {
    match (a, b) {
        (Value::Nil, Value::Nil) => true,
        (Value::Boolean(x), Value::Boolean(y)) => x == y,
        (Value::Number(x), Value::Number(y)) => double_eq(x, y),
        (Value::Str(x), Value::Str(y)) => x == y,
        _ => false,
    }
}

impl Literal {
    /// A copy of this value.
    pub fn duplicate(&self) -> (r: Literal)
        ensures
            r == *self,
    {
        match self {
            Literal::Nil => Literal::Nil,
            Literal::Boolean(b) => Literal::Boolean(*b),
            Literal::Number(n) => Literal::Number(*n),
            Literal::Str(s) => Literal::Str(s.clone()),
        }
    }

    /// The kind of this value.
    pub fn ltype(&self) -> (r: LiteralType)
        ensures
            r == value_type(self@),
    {
        match self {
            Literal::Nil => LiteralType::Nil,
            Literal::Boolean(b) => if *b { LiteralType::True } else { LiteralType::False },
            Literal::Number(_) => LiteralType::Number,
            Literal::Str(_) => LiteralType::String,
        }
    }

    /// Whether the value counts as true in a condition.
    pub fn is_truthy(&self) -> (r: bool)
        ensures
            r == truthy(self@),
    {
        match self {
            Literal::Nil => false,
            Literal::Boolean(b) => *b,
            _ => true,
        }
    }

    /// Equality of the language between two values.
    pub fn is_equal(&self, other: &Literal) -> (r: bool)
        ensures
            r == values_equal(self@, other@),
    {
        match (self, other) {
            (Literal::Nil, Literal::Nil) => true,
            (Literal::Boolean(x), Literal::Boolean(y)) => *x == *y,
            (Literal::Number(x), Literal::Number(y)) => equal(*x, *y),
            (Literal::Str(x), Literal::Str(y)) => x.eq(y),
            _ => false,
        }
    }
}

/// A string value.
pub struct StrLiteral {
    value: String,
}

impl StrLiteral {
    pub fn new(value: String) -> (r: StrLiteral)
        ensures
            r.literal_view() == Value::Str(value@),
    {
        StrLiteral { value }
    }

    pub closed spec fn literal_view(&self) -> Value {
        Value::Str(self.value@)
    }

    pub fn ltype(&self) -> (r: LiteralType)
        ensures
            r == LiteralType::String,
    {
        LiteralType::String
    }

    /// The runtime value this literal stands for.
    pub fn into_literal(self) -> (r: Literal)
        ensures
            r@ == self.literal_view(),
    {
        Literal::Str(self.value)
    }
}

/// A number value, as the bit pattern of an IEEE-754 binary64.
pub struct NumberLiteral {
    bits: u64,
}

impl NumberLiteral {
    pub fn new(bits: u64) -> (r: NumberLiteral)
        ensures
            r.literal_view() == Value::Number(bits),
    {
        NumberLiteral { bits }
    }

    pub closed spec fn literal_view(&self) -> Value {
        Value::Number(self.bits)
    }

    pub fn ltype(&self) -> (r: LiteralType)
        ensures
            r == LiteralType::Number,
    {
        LiteralType::Number
    }

    /// The runtime value this literal stands for.
    pub fn into_literal(self) -> (r: Literal)
        ensures
            r@ == self.literal_view(),
    {
        Literal::Number(self.bits)
    }
}

/// A boolean value.
pub struct BoolLiteral {
    ltype: LiteralType,
    value: bool,
}

impl BoolLiteral {
    pub fn new(value: bool) -> (r: BoolLiteral)
        ensures
            r.literal_view() == Value::Boolean(value),
            r.wf(),
    {
        let ltype = if value { LiteralType::True } else { LiteralType::False };
        BoolLiteral { ltype, value }
    }

    /// The stored kind agrees with the stored value.
    pub closed spec fn wf(&self) -> bool {
        self.ltype == value_type(Value::Boolean(self.value))
    }

    pub closed spec fn literal_view(&self) -> Value {
        Value::Boolean(self.value)
    }

    pub fn ltype(&self) -> (r: LiteralType)
        requires
            self.wf(),
        ensures
            r == value_type(self.literal_view()),
    {
        self.ltype
    }

    /// The runtime value this literal stands for.
    pub fn into_literal(self) -> (r: Literal)
        ensures
            r@ == self.literal_view(),
    {
        Literal::Boolean(self.value)
    }
}

} // verus!
