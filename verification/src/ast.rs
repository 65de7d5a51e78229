//! The abstract syntax tree: expression and statement nodes, each tagged
//! with a source position, and the closed set of binary operators with
//! their precedence tiers.

use vstd::prelude::*;
use crate::text::str_eq;
use crate::token::Position;
use crate::types::Type;

verus! {

/// A binary operator. Comparisons sit on tier 0, additive operators on
/// tier 1, multiplicative on tier 2, and power on tier 3.
#[derive(Clone, Copy, Debug, PartialEq, Eq, Structural)]
pub enum Operator {
    Add,
    Sub,
    Mul,
    Div,
    Mod,
    Pow,
    Concat,
    Eq,
    Lt,
    Gt,
    NEq,
    LtEq,
    GtEq,
}

/// The operator and precedence a lexeme denotes, if any.
pub open spec fn spec_op_from(s: Seq<char>) -> Option<(Operator, u8)> {
    if s == "=="@ {
        Some((Operator::Eq, 0u8))
    } else if s == "<"@ {
        Some((Operator::Lt, 0u8))
    } else if s == ">"@ {
        Some((Operator::Gt, 0u8))
    } else if s == "!="@ {
        Some((Operator::NEq, 0u8))
    } else if s == "<="@ {
        Some((Operator::LtEq, 0u8))
    } else if s == ">="@ {
        Some((Operator::GtEq, 0u8))
    } else if s == "+"@ {
        Some((Operator::Add, 1u8))
    } else if s == "-"@ {
        Some((Operator::Sub, 1u8))
    } else if s == "++"@ {
        Some((Operator::Concat, 1u8))
    } else if s == "*"@ {
        Some((Operator::Mul, 2u8))
    } else if s == "/"@ {
        Some((Operator::Div, 2u8))
    } else if s == "%"@ {
        Some((Operator::Mod, 2u8))
    } else if s == "^"@ {
        Some((Operator::Pow, 3u8))
    } else {
        None
    }
}

/// The lexeme that denotes an operator.
pub open spec fn spec_op_str(op: Operator) -> Seq<char> {
    match op {
        Operator::Add => "+"@,
        Operator::Sub => "-"@,
        Operator::Concat => "++"@,
        Operator::Mul => "*"@,
        Operator::Div => "/"@,
        Operator::Mod => "%"@,
        Operator::Pow => "^"@,
        Operator::Eq => "=="@,
        Operator::Lt => "<"@,
        Operator::Gt => ">"@,
        Operator::NEq => "!="@,
        Operator::LtEq => "<="@,
        Operator::GtEq => ">="@,
    }
}

impl Operator {
    /// Map a lexeme to its operator and precedence tier.
    pub fn from_str(operator: &str) -> (r: Option<(Operator, u8)>)
        ensures
            r == spec_op_from(operator@),
    {
        if str_eq(operator, "==") {
            Some((Operator::Eq, 0))
        } else if str_eq(operator, "<") {
            Some((Operator::Lt, 0))
        } else if str_eq(operator, ">") {
            Some((Operator::Gt, 0))
        } else if str_eq(operator, "!=") {
            Some((Operator::NEq, 0))
        } else if str_eq(operator, "<=") {
            Some((Operator::LtEq, 0))
        } else if str_eq(operator, ">=") {
            Some((Operator::GtEq, 0))
        } else if str_eq(operator, "+") {
            Some((Operator::Add, 1))
        } else if str_eq(operator, "-") {
            Some((Operator::Sub, 1))
        } else if str_eq(operator, "++") {
            Some((Operator::Concat, 1))
        } else if str_eq(operator, "*") {
            Some((Operator::Mul, 2))
        } else if str_eq(operator, "/") {
            Some((Operator::Div, 2))
        } else if str_eq(operator, "%") {
            Some((Operator::Mod, 2))
        } else if str_eq(operator, "^") {
            Some((Operator::Pow, 3))
        } else {
            None
        }
    }

    /// The lexeme this operator prints as.
    pub fn as_str(&self) -> (r: &str)
        ensures
            r@ == spec_op_str(*self),
    {
        match *self {
            Operator::Add => "+",
            Operator::Sub => "-",
            Operator::Concat => "++",
            Operator::Mul => "*",
            Operator::Div => "/",
            Operator::Mod => "%",
            Operator::Pow => "^",
            Operator::Eq => "==",
            Operator::Lt => "<",
            Operator::Gt => ">",
            Operator::NEq => "!=",
            Operator::LtEq => "<=",
            Operator::GtEq => ">=",
        }
    }
}

/// Every operator lexeme maps back to the operator it prints as.
pub proof fn lemma_operator_round_trip(op: Operator)
    ensures
        spec_op_from(spec_op_str(op)) matches Some(p) && p.0 == op,
{
    broadcast use vstd::string::group_string_axioms;

    reveal_strlit("==");
    reveal_strlit("<");
    reveal_strlit(">");
    reveal_strlit("!=");
    reveal_strlit("<=");
    reveal_strlit(">=");
    reveal_strlit("+");
    reveal_strlit("-");
    reveal_strlit("++");
    reveal_strlit("*");
    reveal_strlit("/");
    reveal_strlit("%");
    reveal_strlit("^");
    assert("=="@.len() == 2);
    assert("<"@.len() == 1);
    assert(">"@.len() == 1);
    assert("!="@.len() == 2);
    assert("<="@.len() == 2);
    assert(">="@.len() == 2);
    assert("+"@.len() == 1);
    assert("-"@.len() == 1);
    assert("++"@.len() == 2);
    assert("*"@.len() == 1);
    assert("/"@.len() == 1);
    assert("%"@.len() == 1);
    assert("^"@.len() == 1);
    assert("=="@[0] == '=');
    assert("<"@[0] == '<');
    assert(">"@[0] == '>');
    assert("!="@[0] == '!');
    assert("<="@[0] == '<');
    assert("<="@[1] == '=');
    assert(">="@[0] == '>');
    assert("+"@[0] == '+');
    assert("-"@[0] == '-');
    assert("++"@[0] == '+');
    assert("*"@[0] == '*');
    assert("/"@[0] == '/');
    assert("%"@[0] == '%');
    assert("^"@[0] == '^');
    match op {
        Operator::Add => assert(spec_op_from(spec_op_str(op)) == Some((Operator::Add, 1u8))),
        Operator::Sub => assert(spec_op_from(spec_op_str(op)) == Some((Operator::Sub, 1u8))),
        Operator::Concat => assert(spec_op_from(spec_op_str(op)) == Some((Operator::Concat, 1u8))),
        Operator::Mul => assert(spec_op_from(spec_op_str(op)) == Some((Operator::Mul, 2u8))),
        Operator::Div => assert(spec_op_from(spec_op_str(op)) == Some((Operator::Div, 2u8))),
        Operator::Mod => assert(spec_op_from(spec_op_str(op)) == Some((Operator::Mod, 2u8))),
        Operator::Pow => assert(spec_op_from(spec_op_str(op)) == Some((Operator::Pow, 3u8))),
        Operator::Eq => assert(spec_op_from(spec_op_str(op)) == Some((Operator::Eq, 0u8))),
        Operator::Lt => assert(spec_op_from(spec_op_str(op)) == Some((Operator::Lt, 0u8))),
        Operator::Gt => assert(spec_op_from(spec_op_str(op)) == Some((Operator::Gt, 0u8))),
        Operator::NEq => assert(spec_op_from(spec_op_str(op)) == Some((Operator::NEq, 0u8))),
        Operator::LtEq => assert(spec_op_from(spec_op_str(op)) == Some((Operator::LtEq, 0u8))),
        Operator::GtEq => assert(spec_op_from(spec_op_str(op)) == Some((Operator::GtEq, 0u8))),
    }
}

/// What an expression is: a literal, a name, a block, a binary operation,
/// or the end-of-input marker. A floating literal keeps its lexeme; the
/// front end never computes with its value.
#[derive(Debug)]
pub enum ExpressionNode {
    Int(u128),
    Float(String),
    Str(String),
    Char(char),
    Bool(bool),
    Identifier(String),
    Block(Vec<Statement>),
    Binary(Box<Expression>, Operator, Box<Expression>),
    EOF,
}

/// An expression node together with its source position.
#[derive(Debug)]
pub struct Expression {
    pub node: ExpressionNode,
    pub pos: Position,
}

impl Expression {
    pub fn new(node: ExpressionNode, pos: Position) -> (e: Expression)
        ensures
            e.node == node,
            e.pos == pos,
    {
        Expression { node, pos }
    }
}

/// What a statement is: a bare expression, or a variable declaration with a
/// declared type, a name expression and an optional initializer.
#[derive(Debug)]
pub enum StatementNode {
    Expression(Expression),
    Variable(Type, Expression, Option<Expression>),
}

/// A statement node together with its source position.
#[derive(Debug)]
pub struct Statement {
    pub node: StatementNode,
    pub pos: Position,
}

impl Statement {
    pub fn new(node: StatementNode, pos: Position) -> (s: Statement)
        ensures
            s.node == node,
            s.pos == pos,
    {
        Statement { node, pos }
    }
}

} // verus!
