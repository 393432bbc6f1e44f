//! Concrete runtime values and their comparison.

use vstd::prelude::*;

use crate::ast::ValueExpr;
use crate::ast::VarType;

verus! {

/// A concrete literal value held by a variable or an event argument.
///
/// A float is carried as its IEEE-754 bit pattern, never operated on
/// arithmetically by the engine; the front end converts at the boundary.
#[derive(Debug, Clone)]
pub enum Value {
    Bool(bool),
    Int(i64),
    Float(u64),
    Str(String),
}

impl Value {
    /// The declared type a value inhabits.
    pub open spec fn spec_kind(self) -> VarType {
        match self {
            Value::Bool(_) => VarType::BoolType,
            Value::Int(_) => VarType::IntType,
            Value::Float(_) => VarType::FloatType,
            Value::Str(_) => VarType::StringType,
        }
    }

    /// Returns the declared type this value inhabits.
    pub fn kind(&self) -> (t: VarType)
        ensures
            t == self.spec_kind(),
    {
        match self {
            Value::Bool(_) => VarType::BoolType,
            Value::Int(_) => VarType::IntType,
            Value::Float(_) => VarType::FloatType,
            Value::Str(_) => VarType::StringType,
        }
    }

    /// Value equality as the dispatch engine decides it: same kind and same
    /// payload, strings by their characters and floats by their bit patterns.
    pub open spec fn spec_eq(self, other: Value) -> bool {
        match (self, other) {
            (Value::Bool(a), Value::Bool(b)) => a == b,
            (Value::Int(a), Value::Int(b)) => a == b,
            (Value::Float(a), Value::Float(b)) => a == b,
            (Value::Str(a), Value::Str(b)) => a@ == b@,
            _ => false,
        }
    }

    /// Hands back this very value, payload included.
    pub fn duplicate(&self) -> (r: Value)
        ensures
            r == *self,
    {
        match self {
            Value::Bool(b) => Value::Bool(*b),
            Value::Int(i) => Value::Int(*i),
            Value::Float(f) => Value::Float(*f),
            Value::Str(s) => Value::Str(s.clone()),
        }
    }

    /// Decides [`Value::spec_eq`] on concrete values.
    pub fn equals(&self, other: &Value) -> (r: bool)
        ensures
            r == self.spec_eq(*other),
    {
        match (self, other) {
            (Value::Bool(a), Value::Bool(b)) => *a == *b,
            (Value::Int(a), Value::Int(b)) => *a == *b,
            (Value::Float(a), Value::Float(b)) => *a == *b,
            (Value::Str(a), Value::Str(b)) => *a == *b,
            _ => false,
        }
    }
}

/// The pure-literal evaluation at spec level: a literal expression maps to
/// the corresponding value; any other shape is rejected.
pub open spec fn spec_eval_pure(val: ValueExpr) -> Option<Value> {
    match val {
        ValueExpr::Bool(b) => Some(Value::Bool(b)),
        ValueExpr::Int(i) => Some(Value::Int(i)),
        ValueExpr::Float(f) => Some(Value::Float(f)),
        ValueExpr::Str(s) => Some(Value::Str(s)),
        _ => None,
    }
}

/// Resolves a borrowed literal expression to a copy of its value.
pub fn eval_pure_ref(val: &ValueExpr) -> (r: Option<Value>)
    ensures
        r == spec_eval_pure(*val),
{
    match val {
        ValueExpr::Bool(b) => Some(Value::Bool(*b)),
        ValueExpr::Int(i) => Some(Value::Int(*i)),
        ValueExpr::Float(f) => Some(Value::Float(*f)),
        ValueExpr::Str(s) => Some(Value::Str(s.clone())),
        _ => None,
    }
}

/// Resolves a literal expression to its value.
///
/// Only literal-valued initializers are accepted by the evaluator: a
/// non-literal expression yields `None` and the caller reports the failure.
pub fn eval_pure(val: ValueExpr) -> (r: Option<Value>)
    ensures
        r == spec_eval_pure(val),
{
    match val {
        ValueExpr::Bool(b) => Some(Value::Bool(b)),
        ValueExpr::Int(i) => Some(Value::Int(i)),
        ValueExpr::Float(f) => Some(Value::Float(f)),
        ValueExpr::Str(s) => Some(Value::Str(s)),
        _ => None,
    }
}

} // verus!
