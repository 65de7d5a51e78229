//! The parser: an explicit-stack precedence-climbing expression parser and
//! a small recursive descent for declarations and type annotations.
//!
//! Every parsing function is specified against a functional model of the
//! same grammar (`spec_parse` and its helpers); the executable code is
//! proved to return exactly what the model says, token for token.

use vstd::prelude::*;
use vstd::string::*;
use crate::ast::{
    spec_op_from, Expression, ExpressionNode, Operator, Statement, StatementNode,
};
use crate::digits::{digits_val, parse_u128, valid_int_lexeme};
use crate::error::{cursor_past_end, SyntaxError, SyntaxErrorKind};
use crate::text::str_eq;
use crate::token::{Position, Span, Token, TokenType};
use crate::types::Type;

verus! {

/// The token the cursor sees at offset `i`: once past the end, the last
/// token of the stream.
pub open spec fn spec_cur(toks: Seq<Token>, i: int) -> Token {
    if i > toks.len() - 1 {
        toks[toks.len() - 1]
    } else {
        toks[i]
    }
}

/// The position the cursor reports at offset `i`; the placeholder when
/// there is no token at all to point at.
pub open spec fn spec_cur_pos(toks: Seq<Token>, i: int) -> Position {
    if toks.len() == 0 {
        Position::Unresolved
    } else {
        spec_cur(toks, i).spec_position()
    }
}

/// Merge a left-hand position with the cursor's current end offset,
/// clamped to the left-hand line's length.
pub open spec fn spec_span_from(toks: Seq<Token>, i: int, left: Position) -> Position {
    match left {
        Position::Resolved { line, line_len, span } => match spec_cur_pos(toks, i) {
            Position::Resolved { span: span2, .. } => Position::Resolved {
                line,
                line_len,
                span: Span {
                    start: span.start,
                    end: if span2.end < line_len {
                        span2.end
                    } else {
                        line_len
                    },
                },
            },
            Position::Unresolved => left,
        },
        Position::Unresolved => left,
    }
}

/// A well-formed token: an operator token carries a known operator lexeme,
/// and a character token a non-empty lexeme. The tokenizer guarantees both.
pub open spec fn wf_token(t: Token) -> bool {
    &&& (t.token_type == TokenType::Operator ==> spec_op_from(t.lexeme@) is Some)
    &&& (t.token_type == TokenType::Char ==> t.lexeme@.len() > 0)
}

/// Every token of the stream is well-formed.
pub open spec fn wf_tokens(toks: Seq<Token>) -> bool {
    forall|i: int| 0 <= i < toks.len() ==> wf_token(#[trigger] toks[i])
}

/// The parser: a token stream and a read cursor into it.
pub struct Parser {
    pub tokens: Vec<Token>,
    pub index: usize,
}

impl Parser {
    /// The cursor sits at most one beyond the end of the stream, and the
    /// stream leaves room for that extra step.
    pub open spec fn wf(self) -> bool {
        &&& self.index <= self.tokens@.len() + 1
        &&& self.tokens@.len() < usize::MAX
    }

    /// Build a parser over `tokens` with the cursor at the start. The
    /// stream must leave room for the cursor to sit one past its end.
    pub fn new(tokens: Vec<Token>) -> (p: Parser)
        requires
            tokens@.len() < usize::MAX,
        ensures
            p.tokens == tokens,
            p.index == 0,
            p.wf(),
    {
        Parser { tokens, index: 0 }
    }

    /// How many tokens are left to read.
    pub open spec fn spec_remaining(self) -> int {
        if self.index <= self.tokens@.len() {
            self.tokens@.len() - self.index
        } else {
            0
        }
    }

    pub fn remaining(&self) -> (r: usize)
        ensures
            r == self.spec_remaining(),
    {
        if self.index >= self.tokens.len() {
            0
        } else {
            self.tokens.len() - self.index
        }
    }

    /// Advance the cursor; it may step one beyond the end, and refuses to
    /// move further than that.
    pub fn next(&mut self) -> (r: Result<(), SyntaxError>)
        requires
            old(self).wf(),
        ensures
            final(self).tokens == old(self).tokens,
            final(self).wf(),
            if old(self).index <= old(self).tokens@.len() {
                r is Ok && final(self).index == old(self).index + 1
            } else {
                r == Err::<(), SyntaxError>(cursor_past_end()) && *final(self) == *old(self)
            },
    {
        if self.index <= self.tokens.len() {
            self.index = self.index + 1;
            Ok(())
        } else {
            Err(SyntaxError { kind: SyntaxErrorKind::CursorPastEnd, position: Position::Unresolved })
        }
    }

    /// Peek at the current token, clamped to the last one once past the end.
    pub fn current(&self) -> (t: &Token)
        requires
            self.tokens@.len() > 0,
        ensures
            *t == spec_cur(self.tokens@, self.index as int),
    {
        if self.index > self.tokens.len() - 1 {
            &self.tokens[self.tokens.len() - 1]
        } else {
            &self.tokens[self.index]
        }
    }

    /// The position of the current token, or the placeholder on an empty
    /// stream.
    pub fn current_position(&self) -> (p: Position)
        ensures
            p == spec_cur_pos(self.tokens@, self.index as int),
    {
        if self.tokens.len() == 0 {
            Position::Unresolved
        } else {
            self.current().position()
        }
    }

    /// Merge `left_position` with the current cursor's end offset.
    pub fn span_from(&self, left_position: Position) -> (p: Position)
        ensures
            p == spec_span_from(self.tokens@, self.index as int, left_position),
    {
        match left_position {
            Position::Resolved { line, line_len, span } => match self.current_position() {
                Position::Resolved { span: span2, .. } => Position::Resolved {
                    line,
                    line_len,
                    span: Span {
                        start: span.start,
                        end: if span2.end < line_len {
                            span2.end
                        } else {
                            line_len
                        },
                    },
                },
                Position::Unresolved => left_position,
            },
            Position::Unresolved => left_position,
        }
    }

    /// Read the current token's lexeme and advance.
    pub fn eat(&mut self) -> (r: Result<String, SyntaxError>)
        requires
            old(self).wf(),
            old(self).tokens@.len() > 0,
        ensures
            final(self).tokens == old(self).tokens,
            final(self).wf(),
            if old(self).index <= old(self).tokens@.len() {
                r matches Ok(lex)
                    && lex == spec_cur(old(self).tokens@, old(self).index as int).lexeme
                    && final(self).index == old(self).index + 1
            } else {
                r == Err::<String, SyntaxError>(cursor_past_end()) && *final(self) == *old(self)
            },
    {
        let lexeme = self.current().lexeme.clone();
        match self.next() {
            Ok(()) => Ok(lexeme),
            Err(e) => Err(e),
        }
    }

    /// Read and advance only if the current lexeme is the expected one.
    pub fn eat_lexeme(&mut self, lexeme: &str) -> (r: Result<String, SyntaxError>)
        requires
            old(self).wf(),
            old(self).tokens@.len() > 0,
        ensures
            final(self).tokens == old(self).tokens,
            final(self).wf(),
            ({
                let cur = spec_cur(old(self).tokens@, old(self).index as int);
                if cur.lexeme@ == lexeme@ {
                    if old(self).index <= old(self).tokens@.len() {
                        r matches Ok(lex) && lex == cur.lexeme
                            && final(self).index == old(self).index + 1
                    } else {
                        r == Err::<String, SyntaxError>(cursor_past_end())
                            && *final(self) == *old(self)
                    }
                } else {
                    &&& *final(self) == *old(self)
                    &&& r matches Err(e)
                        && e.kind matches SyntaxErrorKind::ExpectedLexeme(exp, found)
                        && exp@ == lexeme@
                        && found == cur.lexeme
                        && e.position == spec_cur_pos(old(self).tokens@, old(self).index as int)
                }
            }),
    {
        if str_eq(self.current().lexeme.as_str(), lexeme) {
            let lex = self.current().lexeme.clone();
            match self.next() {
                Ok(()) => Ok(lex),
                Err(e) => Err(e),
            }
        } else {
            Err(SyntaxError {
                kind: SyntaxErrorKind::ExpectedLexeme(
                    String::from_str(lexeme),
                    self.current().lexeme.clone(),
                ),
                position: self.current_position(),
            })
        }
    }

    /// Read and advance only if the current token has the expected kind.
    pub fn eat_type(&mut self, token_type: &TokenType) -> (r: Result<String, SyntaxError>)
        requires
            old(self).wf(),
            old(self).tokens@.len() > 0,
        ensures
            final(self).tokens == old(self).tokens,
            final(self).wf(),
            ({
                let cur = spec_cur(old(self).tokens@, old(self).index as int);
                if cur.token_type == *token_type {
                    if old(self).index <= old(self).tokens@.len() {
                        r matches Ok(lex) && lex == cur.lexeme
                            && final(self).index == old(self).index + 1
                    } else {
                        r == Err::<String, SyntaxError>(cursor_past_end())
                            && *final(self) == *old(self)
                    }
                } else {
                    &&& *final(self) == *old(self)
                    &&& r == Err::<String, SyntaxError>(SyntaxError {
                        kind: SyntaxErrorKind::ExpectedTokenType(*token_type, cur.token_type),
                        position: spec_cur_pos(old(self).tokens@, old(self).index as int),
                    })
                }
            }),
    {
        if self.current().token_type == *token_type {
            let lex = self.current().lexeme.clone();
            match self.next() {
                Ok(()) => Ok(lex),
                Err(e) => Err(e),
            }
        } else {
            Err(SyntaxError {
                kind: SyntaxErrorKind::ExpectedTokenType(*token_type, self.current().token_type),
                position: self.current_position(),
            })
        }
    }

    /// The current token's lexeme, without advancing.
    pub fn current_lexeme(&self) -> (r: String)
        requires
            self.tokens@.len() > 0,
        ensures
            r == spec_cur(self.tokens@, self.index as int).lexeme,
    {
        self.current().lexeme.clone()
    }

    /// The current token's kind, without advancing.
    pub fn current_type(&self) -> (r: &TokenType)
        requires
            self.tokens@.len() > 0,
        ensures
            *r == spec_cur(self.tokens@, self.index as int).token_type,
    {
        &self.current().token_type
    }

    /// Check the current token's kind without advancing.
    pub fn expect_type(&self, token_type: TokenType) -> (r: Result<(), SyntaxError>)
        requires
            self.tokens@.len() > 0,
        ensures
            ({
                let cur = spec_cur(self.tokens@, self.index as int);
                if cur.token_type == token_type {
                    r is Ok
                } else {
                    r == Err::<(), SyntaxError>(SyntaxError {
                        kind: SyntaxErrorKind::ExpectedTokenType(token_type, cur.token_type),
                        position: Position::Unresolved,
                    })
                }
            }),
    {
        if self.current().token_type == token_type {
            Ok(())
        } else {
            Err(SyntaxError {
                kind: SyntaxErrorKind::ExpectedTokenType(token_type, self.current().token_type),
                position: Position::Unresolved,
            })
        }
    }
    /// Read one atom: a literal or identifier expression from the next
    /// token, or the end-of-input expression when the stream is exhausted.
    pub fn parse_atom(&mut self) -> (r: Result<Expression, SyntaxError>)
        requires
            old(self).wf(),
            wf_tokens(old(self).tokens@),
        ensures
            final(self).tokens == old(self).tokens,
            final(self).wf(),
            match spec_atom(old(self).tokens@, old(self).index as int) {
                Ok(p) => r matches Ok(e) && e == p.0 && final(self).index == p.1,
                Err(err) => r == Err::<Expression, SyntaxError>(err),
            },
    {
        let ghost toks = self.tokens@;
        let ghost i = self.index as int;
        if self.remaining() == 0 {
            Ok(Expression { node: ExpressionNode::EOF, pos: self.current_position() })
        } else {
            proof {
                assert(wf_token(toks[i]));
            }
            let token_type = self.current().token_type;
            let position = self.current_position();
            match token_type {
                TokenType::Int => {
                    let lex = match self.eat() {
                        Ok(l) => l,
                        Err(_) => {
                            proof {
                                assert(false);
                            }
                            vstd::pervasive::unreached()
                        },
                    };
                    match parse_u128(lex.as_str()) {
                        Some(v) => Ok(Expression { node: ExpressionNode::Int(v), pos: position }),
                        None => Err(SyntaxError {
                            kind: SyntaxErrorKind::InvalidIntLiteral,
                            position,
                        }),
                    }
                },
                TokenType::Float => {
                    let lex = match self.eat() {
                        Ok(l) => l,
                        Err(_) => {
                            proof {
                                assert(false);
                            }
                            vstd::pervasive::unreached()
                        },
                    };
                    Ok(Expression { node: ExpressionNode::Float(lex), pos: position })
                },
                TokenType::Char => {
                    let lex = match self.eat() {
                        Ok(l) => l,
                        Err(_) => {
                            proof {
                                assert(false);
                            }
                            vstd::pervasive::unreached()
                        },
                    };
                    let n = lex.as_str().unicode_len();
                    let c = lex.as_str().get_char(n - 1);
                    Ok(Expression { node: ExpressionNode::Char(c), pos: position })
                },
                TokenType::Str => {
                    let lex = match self.eat() {
                        Ok(l) => l,
                        Err(_) => {
                            proof {
                                assert(false);
                            }
                            vstd::pervasive::unreached()
                        },
                    };
                    Ok(Expression { node: ExpressionNode::Str(lex), pos: position })
                },
                TokenType::Identifier => {
                    let lex = match self.eat() {
                        Ok(l) => l,
                        Err(_) => {
                            proof {
                                assert(false);
                            }
                            vstd::pervasive::unreached()
                        },
                    };
                    Ok(Expression { node: ExpressionNode::Identifier(lex), pos: position })
                },
                TokenType::Bool => {
                    let lex = match self.eat() {
                        Ok(l) => l,
                        Err(_) => {
                            proof {
                                assert(false);
                            }
                            vstd::pervasive::unreached()
                        },
                    };
                    let b = str_eq(lex.as_str(), "true");
                    Ok(Expression { node: ExpressionNode::Bool(b), pos: position })
                },
                _ => Err(SyntaxError {
                    kind: SyntaxErrorKind::UnsupportedToken,
                    position: self.span_from(position),
                }),
            }
        }
    }

    /// Read one type annotation: an identifier token, with the reserved
    /// names mapping to primitive types and anything else to a named type.
    pub fn parse_type(&mut self) -> (r: Result<Type, SyntaxError>)
        requires
            old(self).wf(),
            old(self).tokens@.len() > 0,
        ensures
            final(self).tokens == old(self).tokens,
            final(self).wf(),
            match spec_parse_type(old(self).tokens@, old(self).index as int) {
                Ok(p) => r matches Ok(t) && t == p.0 && final(self).index == p.1,
                Err(err) => r == Err::<Type, SyntaxError>(err),
            },
    {
        let is_identifier = *self.current_type() == TokenType::Identifier;
        if is_identifier {
            let lex = match self.eat() {
                Ok(l) => l,
                Err(e) => {
                    return Err(e);
                },
            };
            if str_eq(lex.as_str(), "str") {
                Ok(Type::Str)
            } else if str_eq(lex.as_str(), "int") {
                Ok(Type::Int)
            } else if str_eq(lex.as_str(), "float") {
                Ok(Type::Float)
            } else if str_eq(lex.as_str(), "bool") {
                Ok(Type::Bool)
            } else if str_eq(lex.as_str(), "char") {
                Ok(Type::Char)
            } else {
                Ok(Type::Id(lex))
            }
        } else {
            Err(SyntaxError {
                kind: SyntaxErrorKind::ExpectedType(self.current_lexeme()),
                position: self.current_position(),
            })
        }
    }
    /// Parse a whole binary expression with `left` as its first operand,
    /// by explicit-stack precedence climbing: operands and operators are
    /// stacked, and a pending operation is reduced as soon as a strictly
    /// lower-precedence operator arrives, or when the operators run out.
    #[verifier::loop_isolation(false)]
    fn parse_binary(&mut self, left: Expression) -> (r: Result<Expression, SyntaxError>)
        requires
            old(self).wf(),
            wf_tokens(old(self).tokens@),
            old(self).tokens@.len() > 0,
            spec_cur(old(self).tokens@, old(self).index as int).token_type == TokenType::Operator,
        ensures
            final(self).tokens == old(self).tokens,
            final(self).wf(),
            match spec_binary(old(self).tokens@, old(self).index as int, left) {
                Ok(p) => r matches Ok(e) && e == p.0 && final(self).index == p.1,
                Err(err) => r == Err::<Expression, SyntaxError>(err),
            },
    {
        let ghost toks = self.tokens@;
        let ghost i0 = self.index as int;
        let ghost gleft = left;
        let left_position = left.pos;
        let first = match self.eat() {
            Ok(l) => l,
            Err(e) => {
                return Err(e);
            },
        };
        let op0 = match Operator::from_str(first.as_str()) {
            Some(p) => p,
            None => {
                proof {
                    let ci: int = if i0 > toks.len() - 1 {
                        toks.len() - 1
                    } else {
                        i0
                    };
                    assert(wf_token(toks[ci]));
                    assert(false);
                }
                vstd::pervasive::unreached()
            },
        };
        let mut expression_stack: Vec<Expression> = Vec::new();
        expression_stack.push(left);
        let mut operator_stack: Vec<(Operator, u8)> = Vec::new();
        operator_stack.push(op0);
        let a1 = match self.parse_atom() {
            Ok(a) => a,
            Err(e) => {
                return Err(e);
            },
        };
        expression_stack.push(a1);
        proof {
            assert(expression_stack@ =~= seq![gleft, a1]);
            assert(operator_stack@ =~= seq![op0]);
        }
        let ghost goal = spec_binary_loop(
            toks,
            self.index as int,
            expression_stack@,
            operator_stack@,
        );
        while operator_stack.len() > 0
            invariant
                self.wf(),
                self.tokens == old(self).tokens,
                self.tokens@ == toks,
                expression_stack@.len() == operator_stack@.len() + 1,
                spec_binary_loop(toks, self.index as int, expression_stack@, operator_stack@)
                    == goal,
            decreases bin_measure(toks, self.index as int), operator_stack@.len(),
        {
            let ghost outer_i = self.index as int;
            let ghost entry_estk = expression_stack@;
            let ghost entry_ostk = operator_stack@;
            while *self.current_type() == TokenType::Operator
                invariant
                    self.wf(),
                    self.tokens == old(self).tokens,
                    self.tokens@ == toks,
                    expression_stack@.len() == operator_stack@.len() + 1,
                    operator_stack@.len() >= 1,
                    spec_binary_loop(toks, self.index as int, expression_stack@, operator_stack@)
                        == goal,
                    self.index as int >= outer_i,
                    self.index as int == outer_i ==> expression_stack@ == entry_estk
                        && operator_stack@ == entry_ostk,
                decreases bin_measure(toks, self.index as int), operator_stack@.len(),
            {
                let ghost gi = self.index as int;
                let ghost gestk = expression_stack@;
                let ghost gostk = operator_stack@;
                let position = self.current_position();
                let lex = match self.eat() {
                    Ok(l) => l,
                    Err(e) => {
                        proof {
                            assert(goal == Err::<(Expression, int), SyntaxError>(
                                cursor_past_end(),
                            ));
                        }
                        return Err(e);
                    },
                };
                let (op, prec) = match Operator::from_str(lex.as_str()) {
                    Some(p) => p,
                    None => {
                        proof {
                            let ci: int = if gi > toks.len() - 1 {
                                toks.len() - 1
                            } else {
                                gi
                            };
                            assert(wf_token(toks[ci]));
                            assert(false);
                        }
                        vstd::pervasive::unreached()
                    },
                };
                let top_prec = operator_stack[operator_stack.len() - 1].1;
                if prec < top_prec {
                    let right = expression_stack.pop().unwrap();
                    let left2 = expression_stack.pop().unwrap();
                    let top = operator_stack.pop().unwrap();
                    let cpos = self.current_position();
                    expression_stack.push(
                        Expression {
                            node: ExpressionNode::Binary(Box::new(left2), top.0, Box::new(right)),
                            pos: cpos,
                        },
                    );
                    proof {
                        let reduced = spec_reduce(gestk, gostk, spec_cur_pos(toks, gi + 1));
                        assert(expression_stack@ =~= reduced.0);
                        assert(operator_stack@ =~= reduced.1);
                    }
                    if self.remaining() > 0 {
                        let a = match self.parse_atom() {
                            Ok(a) => a,
                            Err(e) => {
                                proof {
                                    assert(goal == Err::<(Expression, int), SyntaxError>(e));
                                }
                                return Err(e);
                            },
                        };
                        expression_stack.push(a);
                        operator_stack.push((op, prec));
                        proof {
                            let reduced = spec_reduce(gestk, gostk, spec_cur_pos(toks, gi + 1));
                            assert(expression_stack@ =~= reduced.0.push(a));
                            assert(operator_stack@ =~= reduced.1.push((op, prec)));
                            assert(spec_binary_loop(toks, gi, gestk, gostk)
                                == spec_binary_loop(
                                toks,
                                self.index as int,
                                expression_stack@,
                                operator_stack@,
                            ));
                        }
                    } else {
                        proof {
                            assert(goal == Err::<(Expression, int), SyntaxError>(
                                SyntaxError {
                                    kind: SyntaxErrorKind::EofInOperation,
                                    position: spec_cur_pos(toks, gi),
                                },
                            ));
                        }
                        return Err(SyntaxError {
                            kind: SyntaxErrorKind::EofInOperation,
                            position,
                        });
                    }
                } else {
                    let a = match self.parse_atom() {
                        Ok(a) => a,
                        Err(e) => {
                            proof {
                                assert(goal == Err::<(Expression, int), SyntaxError>(e));
                            }
                            return Err(e);
                        },
                    };
                    expression_stack.push(a);
                    operator_stack.push((op, prec));
                    proof {
                        assert(expression_stack@ =~= gestk.push(a));
                        assert(operator_stack@ =~= gostk.push((op, prec)));
                        assert(spec_binary_loop(toks, gi, gestk, gostk) == spec_binary_loop(
                            toks,
                            self.index as int,
                            expression_stack@,
                            operator_stack@,
                        ));
                    }
                }
            }
            let ghost gi = self.index as int;
            let ghost gestk = expression_stack@;
            let ghost gostk = operator_stack@;
            let right = expression_stack.pop().unwrap();
            let left2 = expression_stack.pop().unwrap();
            let top = operator_stack.pop().unwrap();
            let cpos = self.current_position();
            expression_stack.push(
                Expression {
                    node: ExpressionNode::Binary(Box::new(left2), top.0, Box::new(right)),
                    pos: cpos,
                },
            );
            proof {
                let reduced = spec_reduce(gestk, gostk, spec_cur_pos(toks, gi));
                assert(expression_stack@ =~= reduced.0);
                assert(operator_stack@ =~= reduced.1);
                assert(spec_binary_loop(toks, gi, gestk, gostk) == spec_binary_loop(
                    toks,
                    self.index as int,
                    expression_stack@,
                    operator_stack@,
                ));
            }
        }
        let e = expression_stack.pop().unwrap();
        let sp = self.span_from(left_position);
        proof {
            assert(goal == Ok::<(Expression, int), SyntaxError>((e, self.index as int)));
        }
        Ok(Expression { node: e.node, pos: sp })
    }

    /// Parse one expression: an atom, continued as a binary expression
    /// when an operator token follows.
    pub fn parse_expression(&mut self) -> (r: Result<Expression, SyntaxError>)
        requires
            old(self).wf(),
            wf_tokens(old(self).tokens@),
            old(self).tokens@.len() > 0,
        ensures
            final(self).tokens == old(self).tokens,
            final(self).wf(),
            match spec_parse_expression(old(self).tokens@, old(self).index as int) {
                Ok(p) => r matches Ok(e) && e == p.0 && final(self).index == p.1,
                Err(err) => r == Err::<Expression, SyntaxError>(err),
            },
    {
        let atom = match self.parse_atom() {
            Ok(a) => a,
            Err(e) => {
                return Err(e);
            },
        };
        if *self.current_type() == TokenType::Operator {
            self.parse_binary(atom)
        } else {
            Ok(atom)
        }
    }
    /// Parse a declaration whose name expression `left` has already been
    /// read: the `:` symbol, then `= initializer`, or a type annotation
    /// with an optional `= initializer`.
    fn parse_declaration(&mut self, left: Expression) -> (r: Result<Statement, SyntaxError>)
        requires
            old(self).wf(),
            wf_tokens(old(self).tokens@),
            old(self).tokens@.len() > 0,
        ensures
            final(self).tokens == old(self).tokens,
            final(self).wf(),
            match spec_parse_declaration(old(self).tokens@, old(self).index as int, left) {
                Ok(p) => r matches Ok(s) && s == p.0 && final(self).index == p.1,
                Err(err) => r == Err::<Statement, SyntaxError>(err),
            },
    {
        let lex = self.current_lexeme();
        if !str_eq(lex.as_str(), ":") {
            return Err(SyntaxError {
                kind: SyntaxErrorKind::InvalidDeclaration,
                position: self.current_position(),
            });
        }
        match self.next() {
            Ok(_) => {},
            Err(e) => {
                return Err(e);
            },
        }
        let position = left.pos;
        let lex2 = self.current_lexeme();
        if str_eq(lex2.as_str(), "=") {
            match self.next() {
                Ok(_) => {},
                Err(e) => {
                    return Err(e);
                },
            }
            let right = match self.parse_expression() {
                Ok(e) => e,
                Err(e) => {
                    return Err(e);
                },
            };
            Ok(Statement {
                node: StatementNode::Variable(Type::Nil, left, Some(right)),
                pos: position,
            })
        } else {
            let t = match self.parse_type() {
                Ok(t) => t,
                Err(e) => {
                    return Err(e);
                },
            };
            let lex3 = self.current_lexeme();
            if str_eq(lex3.as_str(), "=") {
                match self.next() {
                    Ok(_) => {},
                    Err(e) => {
                        return Err(e);
                    },
                }
                let right = match self.parse_expression() {
                    Ok(e) => e,
                    Err(e) => {
                        return Err(e);
                    },
                };
                Ok(Statement {
                    node: StatementNode::Variable(t, left, Some(right)),
                    pos: position,
                })
            } else {
                Ok(Statement { node: StatementNode::Variable(t, left, None), pos: position })
            }
        }
    }

    /// Parse one statement: blank lines are skipped; an expression that is
    /// an identifier followed by the `:` symbol becomes a declaration, any
    /// other symbol there is refused, and everything else is a bare
    /// expression statement.
    #[verifier::loop_isolation(false)]
    fn parse_statement(&mut self) -> (r: Result<Statement, SyntaxError>)
        requires
            old(self).wf(),
            wf_tokens(old(self).tokens@),
            old(self).tokens@.len() > 0,
        ensures
            final(self).tokens == old(self).tokens,
            final(self).wf(),
            match spec_parse_statement(old(self).tokens@, old(self).index as int) {
                Ok(p) => r matches Ok(s) && s == p.0 && final(self).index == p.1,
                Err(err) => r == Err::<Statement, SyntaxError>(err),
            },
    {
        let ghost toks = self.tokens@;
        let ghost i0 = self.index as int;
        while *self.current_type() == TokenType::EOL && self.remaining() != 0
            invariant
                self.wf(),
                self.tokens == old(self).tokens,
                spec_skip_eols(toks, i0) == spec_skip_eols(toks, self.index as int),
            decreases spec_rem(toks, self.index as int),
        {
            let ghost gi = self.index as int;
            match self.next() {
                Ok(_) => {},
                Err(e) => {
                    proof {
                        assert(false);
                    }
                    return Err(e);
                },
            }
            proof {
                assert(spec_skip_eols(toks, gi) == spec_skip_eols(toks, gi + 1));
            }
        }
        proof {
            assert(spec_skip_eols(toks, self.index as int) == self.index as int);
        }
        let expression = match self.parse_expression() {
            Ok(e) => e,
            Err(e) => {
                return Err(e);
            },
        };
        let is_identifier = match &expression.node {
            ExpressionNode::Identifier(_) => true,
            _ => false,
        };
        if is_identifier {
            if self.remaining() > 0 {
                if *self.current_type() == TokenType::Symbol {
                    let lex = self.current_lexeme();
                    if str_eq(lex.as_str(), ":") {
                        self.parse_declaration(expression)
                    } else {
                        Err(SyntaxError {
                            kind: SyntaxErrorKind::UnexpectedSymbol(lex),
                            position: self.current_position(),
                        })
                    }
                } else {
                    let position = expression.pos;
                    Ok(Statement { node: StatementNode::Expression(expression), pos: position })
                }
            } else {
                let position = expression.pos;
                Ok(Statement { node: StatementNode::Expression(expression), pos: position })
            }
        } else {
            let position = expression.pos;
            Ok(Statement { node: StatementNode::Expression(expression), pos: position })
        }
    }

    /// Parse the whole token stream into its statement sequence, stopping
    /// at the first syntax error.
    #[verifier::loop_isolation(false)]
    pub fn parse(&mut self) -> (r: Result<Vec<Statement>, SyntaxError>)
        requires
            old(self).wf(),
            wf_tokens(old(self).tokens@),
        ensures
            final(self).tokens == old(self).tokens,
            final(self).wf(),
            match spec_parse(old(self).tokens@, old(self).index as int) {
                Ok(p) => r matches Ok(v) && v@ == p.0 && final(self).index == p.1,
                Err(err) => r == Err::<Vec<Statement>, SyntaxError>(err),
            },
    {
        let ghost toks = self.tokens@;
        let ghost i0 = self.index as int;
        let mut ast: Vec<Statement> = Vec::new();
        while self.remaining() > 0
            invariant
                self.wf(),
                self.tokens == old(self).tokens,
                spec_parse(toks, i0) == (match spec_parse(toks, self.index as int) {
                    Ok(p) => Ok::<(Seq<Statement>, int), SyntaxError>((ast@ + p.0, p.1)),
                    Err(e) => Err::<(Seq<Statement>, int), SyntaxError>(e),
                }),
            decreases spec_rem(toks, self.index as int),
        {
            let ghost gi = self.index as int;
            let ghost gast = ast@;
            let s = match self.parse_statement() {
                Ok(s) => s,
                Err(e) => {
                    return Err(e);
                },
            };
            ast.push(s);
            proof {
                lemma_statement_progress(toks, gi);
                assert(spec_parse(toks, gi) == (match spec_parse(toks, self.index as int) {
                    Ok(p) => Ok::<(Seq<Statement>, int), SyntaxError>((seq![s] + p.0, p.1)),
                    Err(e) => Err::<(Seq<Statement>, int), SyntaxError>(e),
                }));
                match spec_parse(toks, self.index as int) {
                    Ok(p) => {
                        assert(gast + (seq![s] + p.0) =~= ast@ + p.0);
                    },
                    Err(_) => {},
                }
            }
        }
        proof {
            assert(ast@ + Seq::<Statement>::empty() =~= ast@);
        }
        Ok(ast)
    }
}

// === The functional model of the grammar ===
//
// Each function below gives the meaning of one parsing function as a
// mathematical function of the token sequence and a cursor offset: the
// value produced and the offset reached, or the error raised. The
// executable functions are proved to return exactly what the model says.

/// How many tokens are left to read at offset `i`.
pub open spec fn spec_rem(toks: Seq<Token>, i: int) -> int {
    if i <= toks.len() {
        toks.len() - i
    } else {
        0
    }
}

/// The termination measure for the binary-expression loop: how far the
/// cursor still is from the point where it can no longer move.
pub open spec fn bin_measure(toks: Seq<Token>, i: int) -> int {
    if i <= toks.len() + 2 {
        toks.len() + 2 - i
    } else {
        0
    }
}

/// One atom: a literal or identifier from the next token, or the
/// end-of-input expression when the stream is exhausted.
pub open spec fn spec_atom(toks: Seq<Token>, i: int) -> Result<(Expression, int), SyntaxError> {
    if toks.len() - i <= 0 {
        Ok((Expression { node: ExpressionNode::EOF, pos: spec_cur_pos(toks, i) }, i))
    } else {
        let t = toks[i];
        let pos = t.spec_position();
        match t.token_type {
            TokenType::Int => if valid_int_lexeme(t.lexeme@) {
                Ok((
                    Expression { node: ExpressionNode::Int(digits_val(t.lexeme@) as u128), pos },
                    i + 1,
                ))
            } else {
                Err(SyntaxError { kind: SyntaxErrorKind::InvalidIntLiteral, position: pos })
            },
            TokenType::Float => Ok((
                Expression { node: ExpressionNode::Float(t.lexeme), pos },
                i + 1,
            )),
            TokenType::Char => Ok((
                Expression { node: ExpressionNode::Char(t.lexeme@.last()), pos },
                i + 1,
            )),
            TokenType::Str => Ok((Expression { node: ExpressionNode::Str(t.lexeme), pos }, i + 1)),
            TokenType::Identifier => Ok((
                Expression { node: ExpressionNode::Identifier(t.lexeme), pos },
                i + 1,
            )),
            TokenType::Bool => Ok((
                Expression { node: ExpressionNode::Bool(t.lexeme@ == "true"@), pos },
                i + 1,
            )),
            _ => Err(SyntaxError {
                kind: SyntaxErrorKind::UnsupportedToken,
                position: spec_span_from(toks, i, pos),
            }),
        }
    }
}

/// Pop two operands and the top operator, combine them into a binary node
/// positioned at `pos`, and push the node back.
pub open spec fn spec_reduce(
    estk: Seq<Expression>,
    ostk: Seq<(Operator, u8)>,
    pos: Position,
) -> (Seq<Expression>, Seq<(Operator, u8)>) {
    if ostk.len() == 0 {
        (estk, ostk)
    } else if estk.len() < 2 {
        (estk, ostk.drop_last())
    } else {
        let right = estk.last();
        let left = estk[estk.len() - 2];
        let combined = Expression {
            node: ExpressionNode::Binary(Box::new(left), ostk.last().0, Box::new(right)),
            pos,
        };
        (estk.drop_last().drop_last().push(combined), ostk.drop_last())
    }
}

/// The precedence-climbing loop over the two parallel stacks: while the
/// next token is an operator, read it and its right atom, reducing first
/// when its precedence drops strictly below the top of the operator stack;
/// once no operator follows, reduce until the operator stack empties.
pub open spec fn spec_binary_loop(
    toks: Seq<Token>,
    i: int,
    estk: Seq<Expression>,
    ostk: Seq<(Operator, u8)>,
) -> Result<(Expression, int), SyntaxError>
    decreases bin_measure(toks, i), ostk.len(),
{
    if ostk.len() == 0 {
        Ok((estk.last(), i))
    } else if spec_cur(toks, i).token_type == TokenType::Operator {
        if i > toks.len() {
            Err(cursor_past_end())
        } else {
            match spec_op_from(spec_cur(toks, i).lexeme@) {
                None => Err(cursor_past_end()),
                Some(op) => {
                    let i1 = i + 1;
                    if op.1 < ostk.last().1 {
                        let reduced = spec_reduce(estk, ostk, spec_cur_pos(toks, i1));
                        if toks.len() - i1 > 0 {
                            match spec_atom(toks, i1) {
                                Err(e) => Err(e),
                                Ok((a, i2)) => spec_binary_loop(
                                    toks,
                                    i2,
                                    reduced.0.push(a),
                                    reduced.1.push(op),
                                ),
                            }
                        } else {
                            Err(SyntaxError {
                                kind: SyntaxErrorKind::EofInOperation,
                                position: spec_cur_pos(toks, i),
                            })
                        }
                    } else {
                        match spec_atom(toks, i1) {
                            Err(e) => Err(e),
                            Ok((a, i2)) => spec_binary_loop(toks, i2, estk.push(a), ostk.push(op)),
                        }
                    }
                }
            }
        }
    } else {
        let reduced = spec_reduce(estk, ostk, spec_cur_pos(toks, i));
        if reduced.1.len() == 0 {
            Ok((reduced.0.last(), i))
        } else {
            spec_binary_loop(toks, i, reduced.0, reduced.1)
        }
    }
}

/// A whole binary expression starting from the operand `left`: read the
/// first operator and its right atom, run the loop, and give the result
/// the merged span of the whole expression.
pub open spec fn spec_binary(toks: Seq<Token>, i: int, left: Expression) -> Result<
    (Expression, int),
    SyntaxError,
> {
    if i > toks.len() {
        Err(cursor_past_end())
    } else {
        match spec_op_from(spec_cur(toks, i).lexeme@) {
            None => Err(cursor_past_end()),
            Some(op) => match spec_atom(toks, i + 1) {
                Err(e) => Err(e),
                Ok((a, i1)) => match spec_binary_loop(
                    toks,
                    i1,
                    seq![left, a],
                    seq![op],
                ) {
                    Err(e) => Err(e),
                    Ok((e, k)) => Ok((
                        Expression { node: e.node, pos: spec_span_from(toks, k, left.pos) },
                        k,
                    )),
                },
            },
        }
    }
}

/// One expression: an atom, continued as a binary expression when an
/// operator token follows.
pub open spec fn spec_parse_expression(toks: Seq<Token>, i: int) -> Result<
    (Expression, int),
    SyntaxError,
> {
    match spec_atom(toks, i) {
        Err(e) => Err(e),
        Ok((a, j)) => if spec_cur(toks, j).token_type == TokenType::Operator {
            spec_binary(toks, j, a)
        } else {
            Ok((a, j))
        },
    }
}

/// One type annotation: an identifier token, the reserved names mapping to
/// the primitive types and anything else to a named user type.
pub open spec fn spec_parse_type(toks: Seq<Token>, i: int) -> Result<(Type, int), SyntaxError> {
    if spec_cur(toks, i).token_type == TokenType::Identifier {
        if i > toks.len() {
            Err(cursor_past_end())
        } else {
            let lex = spec_cur(toks, i).lexeme;
            let t = if lex@ == "str"@ {
                Type::Str
            } else if lex@ == "int"@ {
                Type::Int
            } else if lex@ == "float"@ {
                Type::Float
            } else if lex@ == "bool"@ {
                Type::Bool
            } else if lex@ == "char"@ {
                Type::Char
            } else {
                Type::Id(lex)
            };
            Ok((t, i + 1))
        }
    } else {
        Err(SyntaxError {
            kind: SyntaxErrorKind::ExpectedType(spec_cur(toks, i).lexeme),
            position: spec_cur_pos(toks, i),
        })
    }
}

/// One declaration after its name: the `:` symbol, then either `=` and an
/// initializer with the type left to inference, or a type annotation with
/// an optional `= initializer`.
pub open spec fn spec_parse_declaration(toks: Seq<Token>, i: int, left: Expression) -> Result<
    (Statement, int),
    SyntaxError,
> {
    if spec_cur(toks, i).lexeme@ != ":"@ {
        Err(SyntaxError {
            kind: SyntaxErrorKind::InvalidDeclaration,
            position: spec_cur_pos(toks, i),
        })
    } else if i > toks.len() {
        Err(cursor_past_end())
    } else {
        let i1 = i + 1;
        let position = left.pos;
        if spec_cur(toks, i1).lexeme@ == "="@ {
            if i1 > toks.len() {
                Err(cursor_past_end())
            } else {
                match spec_parse_expression(toks, i1 + 1) {
                    Err(e) => Err(e),
                    Ok((right, k)) => Ok((
                        Statement {
                            node: StatementNode::Variable(Type::Nil, left, Some(right)),
                            pos: position,
                        },
                        k,
                    )),
                }
            }
        } else {
            match spec_parse_type(toks, i1) {
                Err(e) => Err(e),
                Ok((t, i2)) => if spec_cur(toks, i2).lexeme@ == "="@ {
                    if i2 > toks.len() {
                        Err(cursor_past_end())
                    } else {
                        match spec_parse_expression(toks, i2 + 1) {
                            Err(e) => Err(e),
                            Ok((right, k)) => Ok((
                                Statement {
                                    node: StatementNode::Variable(t, left, Some(right)),
                                    pos: position,
                                },
                                k,
                            )),
                        }
                    }
                } else {
                    Ok((
                        Statement { node: StatementNode::Variable(t, left, None), pos: position },
                        i2,
                    ))
                },
            }
        }
    }
}

/// The first offset at or after `i` that does not hold a blank end-of-line
/// token.
pub open spec fn spec_skip_eols(toks: Seq<Token>, i: int) -> int
    decreases toks.len() - i,
{
    if i < toks.len() && toks[i].token_type == TokenType::EOL {
        spec_skip_eols(toks, i + 1)
    } else {
        i
    }
}

/// One statement: blank lines skipped, one expression, and, when the
/// expression is an identifier followed by a symbol token, either a
/// declaration after `:` or a refused symbol.
pub open spec fn spec_parse_statement(toks: Seq<Token>, i: int) -> Result<
    (Statement, int),
    SyntaxError,
> {
    let j = spec_skip_eols(toks, i);
    match spec_parse_expression(toks, j) {
        Err(e) => Err(e),
        Ok((e, k)) => if e.node is Identifier && toks.len() - k > 0 && spec_cur(
            toks,
            k,
        ).token_type == TokenType::Symbol {
            if spec_cur(toks, k).lexeme@ == ":"@ {
                spec_parse_declaration(toks, k, e)
            } else {
                Err(SyntaxError {
                    kind: SyntaxErrorKind::UnexpectedSymbol(spec_cur(toks, k).lexeme),
                    position: spec_cur_pos(toks, k),
                })
            }
        } else {
            Ok((Statement { node: StatementNode::Expression(e), pos: e.pos }, k))
        },
    }
}

// === Progress of the model ===
//
// The cursor offset never moves backwards, and a statement parsed where
// tokens remain consumes at least one of them. These facts justify the
// termination of `spec_parse` and of the parsing loops.

proof fn lemma_atom_mono(toks: Seq<Token>, i: int)
    ensures
        spec_atom(toks, i) matches Ok(p) ==> p.1 >= i && (i < toks.len() ==> p.1 == i + 1) && (i
            >= toks.len() ==> p.1 == i),
{
}

proof fn lemma_binary_loop_mono(toks: Seq<Token>, i: int, estk: Seq<Expression>, ostk: Seq<(Operator, u8)>)
    ensures
        spec_binary_loop(toks, i, estk, ostk) matches Ok(p) ==> p.1 >= i,
    decreases bin_measure(toks, i), ostk.len(),
{
    if ostk.len() == 0 {
    } else if spec_cur(toks, i).token_type == TokenType::Operator {
        if i <= toks.len() {
            match spec_op_from(spec_cur(toks, i).lexeme@) {
                None => {}
                Some(op) => {
                    let i1 = i + 1;
                    lemma_atom_mono(toks, i1);
                    if op.1 < ostk.last().1 {
                        let reduced = spec_reduce(estk, ostk, spec_cur_pos(toks, i1));
                        if toks.len() - i1 > 0 {
                            match spec_atom(toks, i1) {
                                Err(_) => {}
                                Ok((a, i2)) => {
                                    lemma_binary_loop_mono(
                                        toks,
                                        i2,
                                        reduced.0.push(a),
                                        reduced.1.push(op),
                                    );
                                }
                            }
                        }
                    } else {
                        match spec_atom(toks, i1) {
                            Err(_) => {}
                            Ok((a, i2)) => {
                                lemma_binary_loop_mono(toks, i2, estk.push(a), ostk.push(op));
                            }
                        }
                    }
                }
            }
        }
    } else {
        let reduced = spec_reduce(estk, ostk, spec_cur_pos(toks, i));
        if reduced.1.len() != 0 {
            lemma_binary_loop_mono(toks, i, reduced.0, reduced.1);
        }
    }
}

proof fn lemma_binary_mono(toks: Seq<Token>, i: int, left: Expression)
    ensures
        spec_binary(toks, i, left) matches Ok(p) ==> p.1 >= i,
{
    if i <= toks.len() {
        match spec_op_from(spec_cur(toks, i).lexeme@) {
            None => {}
            Some(op) => {
                lemma_atom_mono(toks, i + 1);
                match spec_atom(toks, i + 1) {
                    Err(_) => {}
                    Ok((a, i1)) => {
                        lemma_binary_loop_mono(toks, i1, seq![left, a], seq![op]);
                    }
                }
            }
        }
    }
}

proof fn lemma_expression_mono(toks: Seq<Token>, i: int)
    ensures
        spec_parse_expression(toks, i) matches Ok(p) ==> p.1 >= i && (i < toks.len() ==> p.1 > i),
{
    lemma_atom_mono(toks, i);
    match spec_atom(toks, i) {
        Err(_) => {}
        Ok((a, j)) => {
            if spec_cur(toks, j).token_type == TokenType::Operator {
                lemma_binary_mono(toks, j, a);
            }
        }
    }
}

proof fn lemma_declaration_mono(toks: Seq<Token>, i: int, left: Expression)
    ensures
        spec_parse_declaration(toks, i, left) matches Ok(p) ==> p.1 >= i,
{
    lemma_expression_mono(toks, i + 2);
    match spec_parse_type(toks, i + 1) {
        Err(_) => {}
        Ok((t, i2)) => {
            lemma_expression_mono(toks, i2 + 1);
        }
    }
}

proof fn lemma_skip_eols_bounds(toks: Seq<Token>, i: int)
    ensures
        spec_skip_eols(toks, i) >= i,
        i <= toks.len() ==> spec_skip_eols(toks, i) <= toks.len(),
    decreases toks.len() - i,
{
    if i < toks.len() && toks[i].token_type == TokenType::EOL {
        lemma_skip_eols_bounds(toks, i + 1);
    }
}

/// A statement parsed where tokens remain ends strictly past where it
/// began.
pub proof fn lemma_statement_progress(toks: Seq<Token>, i: int)
    requires
        i < toks.len(),
    ensures
        spec_parse_statement(toks, i) matches Ok(p) ==> i < p.1,
{
    let j = spec_skip_eols(toks, i);
    lemma_skip_eols_bounds(toks, i);
    lemma_expression_mono(toks, j);
    match spec_parse_expression(toks, j) {
        Err(_) => {}
        Ok((e, k)) => {
            if j == i {
                assert(k > i);
            }
            lemma_declaration_mono(toks, k, e);
        }
    }
}

/// The statement sequence: statements parsed one after the other until the
/// stream is exhausted.
pub open spec fn spec_parse(toks: Seq<Token>, i: int) -> Result<(Seq<Statement>, int), SyntaxError>
    decreases spec_rem(toks, i),
{
    if toks.len() - i <= 0 {
        Ok((Seq::empty(), i))
    } else {
        match spec_parse_statement(toks, i) {
            Err(e) => Err(e),
            Ok((s, j)) => {
                proof {
                    lemma_statement_progress(toks, i);
                }
                match spec_parse(toks, j) {
                    Err(e) => Err(e),
                    Ok((rest, k)) => Ok((seq![s] + rest, k)),
                }
            }
        }
    }
}



// === Laws of the precedence climber ===

/// Two operators whose precedences do not fall left to right defer every
/// reduction: the chain `a o1 b o2 c` groups as `o1(a, o2(b, c))` —
/// right-nested — whatever the atoms are. In particular a rising pair
/// groups the higher-precedence pair innermost, and a chain of equal
/// precedences nests to the right, not to the left.
pub proof fn lemma_nondecreasing_chain_groups_right(
    toks: Seq<Token>,
    i: int,
    a: Expression,
    b: Expression,
    c: Expression,
    j: int,
    op1: (Operator, u8),
    op2: (Operator, u8),
)
    requires
        toks.len() > 0,
        0 <= i < toks.len(),
        toks[i].token_type == TokenType::Operator,
        spec_op_from(toks[i].lexeme@) == Some(op2),
        op2.1 >= op1.1,
        spec_atom(toks, i + 1) == Ok::<(Expression, int), SyntaxError>((c, j)),
        spec_cur(toks, j).token_type != TokenType::Operator,
    ensures
        spec_binary_loop(toks, i, seq![a, b], seq![op1]) == Ok::<
            (Expression, int),
            SyntaxError,
        >((
            Expression {
                node: ExpressionNode::Binary(
                    Box::new(a),
                    op1.0,
                    Box::new(
                        Expression {
                            node: ExpressionNode::Binary(Box::new(b), op2.0, Box::new(c)),
                            pos: spec_cur_pos(toks, j),
                        },
                    ),
                ),
                pos: spec_cur_pos(toks, j),
            },
            j,
        )),
{
    let estk0 = seq![a, b];
    let ostk0 = seq![op1];
    assert(spec_cur(toks, i) == toks[i]);
    assert(estk0.push(c) =~= seq![a, b, c]);
    assert(ostk0.push(op2) =~= seq![op1, op2]);
    let s1 = spec_binary_loop(toks, j, seq![a, b, c], seq![op1, op2]);
    assert(spec_binary_loop(toks, i, estk0, ostk0) == s1);
    let inner = Expression {
        node: ExpressionNode::Binary(Box::new(b), op2.0, Box::new(c)),
        pos: spec_cur_pos(toks, j),
    };
    let red1 = spec_reduce(seq![a, b, c], seq![op1, op2], spec_cur_pos(toks, j));
    assert(red1.0 =~= seq![a, inner]);
    assert(red1.1 =~= seq![op1]);
    let s2 = spec_binary_loop(toks, j, seq![a, inner], seq![op1]);
    assert(s1 == s2);
    let outer = Expression {
        node: ExpressionNode::Binary(Box::new(a), op1.0, Box::new(inner)),
        pos: spec_cur_pos(toks, j),
    };
    let red2 = spec_reduce(seq![a, inner], seq![op1], spec_cur_pos(toks, j));
    assert(red2.0 =~= seq![outer]);
    assert(red2.1 =~= Seq::<(Operator, u8)>::empty());
    assert(s2 == Ok::<(Expression, int), SyntaxError>((outer, j)));
}

/// An operator of strictly lower precedence than the pending one forces a
/// reduction first: the chain `a o1 b o2 c` with falling precedence
/// groups as `o2(o1(a, b), c)`, keeping the higher-precedence pair
/// innermost on that side too.
pub proof fn lemma_falling_precedence_reduces_first(
    toks: Seq<Token>,
    i: int,
    a: Expression,
    b: Expression,
    c: Expression,
    j: int,
    op1: (Operator, u8),
    op2: (Operator, u8),
)
    requires
        toks.len() > 0,
        0 <= i < toks.len(),
        toks[i].token_type == TokenType::Operator,
        spec_op_from(toks[i].lexeme@) == Some(op2),
        op2.1 < op1.1,
        i + 1 < toks.len(),
        spec_atom(toks, i + 1) == Ok::<(Expression, int), SyntaxError>((c, j)),
        spec_cur(toks, j).token_type != TokenType::Operator,
    ensures
        spec_binary_loop(toks, i, seq![a, b], seq![op1]) == Ok::<
            (Expression, int),
            SyntaxError,
        >((
            Expression {
                node: ExpressionNode::Binary(
                    Box::new(
                        Expression {
                            node: ExpressionNode::Binary(Box::new(a), op1.0, Box::new(b)),
                            pos: spec_cur_pos(toks, i + 1),
                        },
                    ),
                    op2.0,
                    Box::new(c),
                ),
                pos: spec_cur_pos(toks, j),
            },
            j,
        )),
{
    let estk0 = seq![a, b];
    let ostk0 = seq![op1];
    assert(spec_cur(toks, i) == toks[i]);
    let inner = Expression {
        node: ExpressionNode::Binary(Box::new(a), op1.0, Box::new(b)),
        pos: spec_cur_pos(toks, i + 1),
    };
    let red1 = spec_reduce(estk0, ostk0, spec_cur_pos(toks, i + 1));
    assert(red1.0 =~= seq![inner]);
    assert(red1.1 =~= Seq::<(Operator, u8)>::empty());
    assert(red1.0.push(c) =~= seq![inner, c]);
    assert(red1.1.push(op2) =~= seq![op2]);
    let s1 = spec_binary_loop(toks, j, seq![inner, c], seq![op2]);
    assert(spec_binary_loop(toks, i, estk0, ostk0) == s1);
    let outer = Expression {
        node: ExpressionNode::Binary(Box::new(inner), op2.0, Box::new(c)),
        pos: spec_cur_pos(toks, j),
    };
    let red2 = spec_reduce(seq![inner, c], seq![op2], spec_cur_pos(toks, j));
    assert(red2.0 =~= seq![outer]);
    assert(red2.1 =~= Seq::<(Operator, u8)>::empty());
    assert(s1 == Ok::<(Expression, int), SyntaxError>((outer, j)));
}

} // verus!
