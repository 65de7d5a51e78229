//! The closed set of types the front end knows. `Nil` is the "no declared
//! type, let inference decide" marker; `Id` names a user type that later
//! passes would resolve.

use vstd::prelude::*;
use vstd::string::*;
use crate::ast::ExpressionNode;
use crate::text::str_eq;

verus! {

#[derive(Clone, Debug)]
pub enum Type {
    Int,
    Float,
    Char,
    Str,
    Bool,
    Nil,
    Id(String),
}

impl Type {
    /// An exact copy of this type.
    pub fn dup(&self) -> (t: Type)
        ensures
            t == *self,
    {
        match self {
            Type::Int => Type::Int,
            Type::Float => Type::Float,
            Type::Char => Type::Char,
            Type::Str => Type::Str,
            Type::Bool => Type::Bool,
            Type::Nil => Type::Nil,
            Type::Id(name) => Type::Id(name.clone()),
        }
    }

    /// Whether a declared type accepts an initializer of this literal shape
    /// directly: the only widening is that `Int` or `Float` accepts an
    /// integer literal.
    pub open spec fn spec_check_expression(self, other: ExpressionNode) -> bool {
        match other {
            ExpressionNode::Int(_) => self is Int || self is Float,
            _ => false,
        }
    }

    pub fn check_expression(&self, other: &ExpressionNode) -> (r: bool)
        ensures
            r == self.spec_check_expression(*other),
    {
        match other {
            ExpressionNode::Int(_) => match self {
                Type::Int => true,
                Type::Float => true,
                _ => false,
            },
            _ => false,
        }
    }

    /// The name this type prints as.
    pub open spec fn spec_text(self) -> Seq<char> {
        match self {
            Type::Int => "int"@,
            Type::Float => "float"@,
            Type::Char => "char"@,
            Type::Str => "str"@,
            Type::Bool => "bool"@,
            Type::Nil => "nil"@,
            Type::Id(name) => name@,
        }
    }

    pub fn text(&self) -> (r: String)
        ensures
            r@ == self.spec_text(),
    {
        match self {
            Type::Int => String::from_str("int"),
            Type::Float => String::from_str("float"),
            Type::Char => String::from_str("char"),
            Type::Str => String::from_str("str"),
            Type::Bool => String::from_str("bool"),
            Type::Nil => String::from_str("nil"),
            Type::Id(name) => name.clone(),
        }
    }
}

/// Structural equality of two types; named user types are equal when their
/// names spell the same.
pub open spec fn type_eq(a: Type, b: Type) -> bool {
    match (a, b) {
        (Type::Int, Type::Int) => true,
        (Type::Float, Type::Float) => true,
        (Type::Char, Type::Char) => true,
        (Type::Str, Type::Str) => true,
        (Type::Bool, Type::Bool) => true,
        (Type::Nil, Type::Nil) => true,
        (Type::Id(x), Type::Id(y)) => x@ == y@,
        _ => false,
    }
}

impl PartialEq for Type {
    fn eq(&self, other: &Type) -> (r: bool) {
        match (self, other) {
            (Type::Int, Type::Int) => true,
            (Type::Float, Type::Float) => true,
            (Type::Char, Type::Char) => true,
            (Type::Str, Type::Str) => true,
            (Type::Bool, Type::Bool) => true,
            (Type::Nil, Type::Nil) => true,
            (Type::Id(a), Type::Id(b)) => str_eq(a.as_str(), b.as_str()),
            _ => false,
        }
    }
}

impl vstd::std_specs::cmp::PartialEqSpecImpl for Type {
    open spec fn obeys_eq_spec() -> bool {
        true
    }

    open spec fn eq_spec(&self, other: &Type) -> bool {
        type_eq(*self, *other)
    }
}

} // verus!
