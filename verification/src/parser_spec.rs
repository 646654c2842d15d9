//! The grammar of Crust, stated as mathematics over the parser's state: the
//! token list and the position in it. Each `p_*` function says what the
//! parser makes of the tokens from a state on: a value and the state after
//! it, or the error it reports.
use vstd::prelude::*;
use crate::ast::{
    AccessOp, BinaryOp, SpecExpr, SpecField, SpecFunction, SpecItem, SpecNamespace, SpecObject,
    SpecParameter, SpecProgram, SpecStmt, UnaryOp,
};
use crate::token::{SpecToken, SpecType};
use crate::format_spec::type_tag;

verus! {

/// The parser's state: all tokens (those read included) and the position of
/// the next one.
pub struct PState {
    pub tokens: Seq<SpecToken>,
    pub pos: int,
}

/// A parse error: a message and the place of the token it is reported at.
pub struct SpecParseError {
    pub message: Seq<char>,
    pub line: usize,
    pub column: usize,
    pub file: Seq<char>,
}

/// Two token kinds of the same variant, payloads aside.
pub open spec fn same_variant(a: SpecType, b: SpecType) -> bool {
    type_tag(a) == type_tag(b)
}

/// How much work a token stands for: one, plus the tokens that an include
/// (`get`) token holds.
pub open spec fn token_weight(t: SpecToken) -> nat
    decreases t,
{
    1 + match t.token_type {
        SpecType::Get(ts) => seq_weight(ts),
        _ => 0,
    }
}

pub open spec fn seq_weight(s: Seq<SpecToken>) -> nat
    decreases s,
{
    if s.len() == 0 {
        0
    } else {
        token_weight(s[0]) + seq_weight(s.drop_first())
    }
}

/// The work left: the weight of the tokens from the position on.
pub open spec fn rem(st: PState) -> nat {
    seq_weight(st.tokens.subrange(st.pos, st.tokens.len() as int))
}

/// The parser moved on: less work is left.
pub open spec fn smaller(a: PState, b: PState) -> bool {
    rem(a) < rem(b)
}

pub open spec fn wf(st: PState) -> bool {
    0 <= st.pos <= st.tokens.len()
}

pub open spec fn peek(st: PState) -> Option<SpecType> {
    if 0 <= st.pos < st.tokens.len() {
        Some(st.tokens[st.pos].token_type)
    } else {
        None
    }
}

pub open spec fn check(st: PState, t: SpecType) -> bool {
    match peek(st) {
        Some(a) => same_variant(a, t),
        None => false,
    }
}

pub open spec fn adv(st: PState) -> PState {
    PState { tokens: st.tokens, pos: st.pos + 1 }
}

/// Moves past the next token if it has the variant of `t`.
pub open spec fn consume(st: PState, t: SpecType) -> (bool, PState) {
    if check(st, t) {
        (true, adv(st))
    } else {
        (false, st)
    }
}

pub open spec fn at_end(st: PState) -> bool {
    st.pos >= st.tokens.len()
}

pub open spec fn skip_eol(st: PState) -> PState
    decreases st.tokens.len() - st.pos,
{
    if check(st, SpecType::EOL) {
        skip_eol(adv(st))
    } else {
        st
    }
}

pub open spec fn is_statement_end(st: PState) -> bool {
    at_end(st) || check(st, SpecType::EOL) || check(st, SpecType::RBrace)
}

/// An error reported at the next token, or at the last one when none is left.
pub open spec fn error_at(st: PState, message: Seq<char>) -> SpecParseError {
    if 0 <= st.pos < st.tokens.len() {
        let t = st.tokens[st.pos];
        SpecParseError { message, line: t.line, column: t.column, file: t.file }
    } else if st.tokens.len() > 0 {
        let t = st.tokens.last();
        SpecParseError { message, line: t.line, column: t.column, file: t.file }
    } else {
        SpecParseError { message, line: 0, column: 0, file: Seq::empty() }
    }
}

/// The name of a token kind without payload, as the error messages give it.
pub open spec fn kind_name(t: SpecType) -> Seq<char> {
    match t {
        SpecType::EOL => "EOL"@,
        SpecType::EOF => "EOF"@,
        SpecType::Mut => "Mut"@,
        SpecType::Immut => "Immut"@,
        SpecType::Ref => "Ref"@,
        SpecType::Func => "Func"@,
        SpecType::Private => "Private"@,
        SpecType::Colon => "Colon"@,
        SpecType::DoubleColon => "DoubleColon"@,
        SpecType::ColonArrow => "ColonArrow"@,
        SpecType::If => "If"@,
        SpecType::Else => "Else"@,
        SpecType::While => "While"@,
        SpecType::Break => "Break"@,
        SpecType::Continue => "Continue"@,
        SpecType::Ret => "Ret"@,
        SpecType::Object => "Object"@,
        SpecType::Namespace => "Namespace"@,
        SpecType::Entry => "Entry"@,
        SpecType::Constructor => "Constructor"@,
        SpecType::LParen => "LParen"@,
        SpecType::RParen => "RParen"@,
        SpecType::LBrace => "LBrace"@,
        SpecType::RBrace => "RBrace"@,
        SpecType::Comma => "Comma"@,
        SpecType::Equals => "Equals"@,
        SpecType::DoubleEquals => "DoubleEquals"@,
        SpecType::BangEquals => "BangEquals"@,
        SpecType::LessThan => "LessThan"@,
        SpecType::GreaterThan => "GreaterThan"@,
        SpecType::LessThanOrEqual => "LessThanOrEqual"@,
        SpecType::GreaterThanOrEqual => "GreaterThanOrEqual"@,
        SpecType::Plus => "Plus"@,
        SpecType::Minus => "Minus"@,
        SpecType::Star => "Star"@,
        SpecType::Slash => "Slash"@,
        SpecType::Percent => "Percent"@,
        SpecType::Exponent => "Exponent"@,
        SpecType::Bang => "Bang"@,
        SpecType::DoubleAmpersand => "DoubleAmpersand"@,
        SpecType::DoublePipe => "DoublePipe"@,
        _ => Seq::empty(),
    }
}

pub open spec fn expect(st: PState, t: SpecType) -> Result<PState, SpecParseError> {
    if check(st, t) {
        Ok(adv(st))
    } else {
        Err(error_at(st, "expected "@ + kind_name(t)))
    }
}

/// The next token must be an identifier; the parser moves past the next token
/// before it looks at it, so an error is reported at the token after it.
pub open spec fn expect_identifier(st: PState) -> Result<(Seq<char>, PState), SpecParseError> {
    if 0 <= st.pos < st.tokens.len() {
        match st.tokens[st.pos].token_type {
            SpecType::Identifier(name) => Ok((name, adv(st))),
            _ => Err(error_at(adv(st), "expected an identifier"@)),
        }
    } else {
        Err(error_at(st, "expected an identifier"@))
    }
}

/// The binary operator that the next token stands for, with its precedence.
pub open spec fn binop(st: PState) -> Option<(BinaryOp, u8)> {
    match peek(st) {
        Some(SpecType::DoublePipe) => Some((BinaryOp::Or, 1u8)),
        Some(SpecType::DoubleAmpersand) => Some((BinaryOp::And, 2u8)),
        Some(SpecType::DoubleEquals) => Some((BinaryOp::Equal, 3u8)),
        Some(SpecType::BangEquals) => Some((BinaryOp::NotEqual, 3u8)),
        Some(SpecType::LessThan) => Some((BinaryOp::Less, 4u8)),
        Some(SpecType::LessThanOrEqual) => Some((BinaryOp::LessOrEqual, 4u8)),
        Some(SpecType::GreaterThan) => Some((BinaryOp::Greater, 4u8)),
        Some(SpecType::GreaterThanOrEqual) => Some((BinaryOp::GreaterOrEqual, 4u8)),
        Some(SpecType::Plus) => Some((BinaryOp::Add, 5u8)),
        Some(SpecType::Minus) => Some((BinaryOp::Subtract, 5u8)),
        Some(SpecType::Star) => Some((BinaryOp::Multiply, 6u8)),
        Some(SpecType::Slash) => Some((BinaryOp::Divide, 6u8)),
        Some(SpecType::Percent) => Some((BinaryOp::Remainder, 6u8)),
        Some(SpecType::Exponent) => Some((BinaryOp::Exponent, 7u8)),
        _ => None,
    }
}

/// The tokens with `inner` put in at position `at`.
pub open spec fn splice(ts: Seq<SpecToken>, at: int, inner: Seq<SpecToken>) -> Seq<SpecToken> {
    ts.take(at) + inner + ts.skip(at)
}

pub open spec fn moved_on() -> SpecParseError {
    SpecParseError { message: Seq::empty(), line: 0, column: 0, file: Seq::empty() }
}

// ---------------------------------------------------------------------------
// Expressions
// ---------------------------------------------------------------------------

pub open spec fn p_expression(st: PState) -> Result<(SpecExpr, PState), SpecParseError>
    decreases rem(st), 8nat,
{
    p_binary(st, 0)
}

pub open spec fn p_binary(st: PState, min: u8) -> Result<(SpecExpr, PState), SpecParseError>
    decreases rem(st), 7nat,
{
    match p_unary(st) {
        Ok((left, st1)) => if smaller(st1, st) {
            p_binary_loop(st1, left, min)
        } else {
            Err(moved_on())
        },
        Err(e) => Err(e),
    }
}

/// Binary operators of at least the given precedence, applied from left to
/// right; `^` is applied from right to left.
pub open spec fn p_binary_loop(st: PState, left: SpecExpr, min: u8) -> Result<(SpecExpr, PState), SpecParseError>
    decreases rem(st), 1nat,
{
    match binop(st) {
        None => Ok((left, st)),
        Some((op, prec)) => if prec < min {
            Ok((left, st))
        } else {
            let st1 = adv(st);
            let next: u8 = if op == BinaryOp::Exponent { prec } else { (prec + 1) as u8 };
            if smaller(st1, st) {
                match p_binary(st1, next) {
                    Ok((right, st2)) => if smaller(st2, st) {
                        p_binary_loop(
                            st2,
                            SpecExpr::Binary { left: Box::new(left), operator: op, right: Box::new(right) },
                            min,
                        )
                    } else {
                        Err(moved_on())
                    },
                    Err(e) => Err(e),
                }
            } else {
                Err(moved_on())
            }
        },
    }
}

pub open spec fn p_unary(st: PState) -> Result<(SpecExpr, PState), SpecParseError>
    decreases rem(st), 6nat,
{
    match peek(st) {
        Some(SpecType::Bang) => if smaller(adv(st), st) {
            match p_unary(adv(st)) {
                Ok((v, st1)) => Ok((SpecExpr::Unary { operator: UnaryOp::Not, value: Box::new(v) }, st1)),
                Err(e) => Err(e),
            }
        } else {
            Err(moved_on())
        },
        Some(SpecType::Minus) => if smaller(adv(st), st) {
            match p_unary(adv(st)) {
                Ok((v, st1)) => Ok((SpecExpr::Unary { operator: UnaryOp::Negate, value: Box::new(v) }, st1)),
                Err(e) => Err(e),
            }
        } else {
            Err(moved_on())
        },
        _ => p_primary(st),
    }
}

pub open spec fn p_primary(st: PState) -> Result<(SpecExpr, PState), SpecParseError>
    decreases rem(st), 5nat,
{
    if 0 <= st.pos < st.tokens.len() {
        let st1 = adv(st);
        if smaller(st1, st) {
            match st.tokens[st.pos].token_type {
                SpecType::Integer(v) => p_postfix(st1, SpecExpr::Integer(v)),
                SpecType::Float(v) => p_postfix(st1, SpecExpr::Float(v)),
                SpecType::String(v) => p_postfix(st1, SpecExpr::String(v)),
                SpecType::Char(v) => p_postfix(st1, SpecExpr::Char(v)),
                SpecType::Boolean(v) => p_postfix(st1, SpecExpr::Boolean(v)),
                SpecType::Identifier(v) => p_postfix(st1, SpecExpr::Name(v)),
                SpecType::LParen => match p_expression(st1) {
                    Ok((v, st2)) => match expect(st2, SpecType::RParen) {
                        Ok(st3) => if smaller(st3, st) {
                            p_postfix(st3, SpecExpr::Group(Box::new(v)))
                        } else {
                            Err(moved_on())
                        },
                        Err(e) => Err(e),
                    },
                    Err(e) => Err(e),
                },
                _ => Err(error_at(st1, "expected an expression"@)),
            }
        } else {
            Err(moved_on())
        }
    } else {
        Err(error_at(st, "expected an expression"@))
    }
}

/// Calls and accesses that follow a primary expression.
pub open spec fn p_postfix(st: PState, e: SpecExpr) -> Result<(SpecExpr, PState), SpecParseError>
    decreases rem(st), 1nat,
{
    if check(st, SpecType::LParen) {
        let st1 = adv(st);
        if smaller(st1, st) {
            match p_arguments(st1, Seq::empty()) {
                Ok((args, st2)) => match expect(st2, SpecType::RParen) {
                    Ok(st3) => if smaller(st3, st) {
                        p_postfix(st3, SpecExpr::Call { callee: Box::new(e), arguments: args })
                    } else {
                        Err(moved_on())
                    },
                    Err(err) => Err(err),
                },
                Err(err) => Err(err),
            }
        } else {
            Err(moved_on())
        }
    } else if check(st, SpecType::DoubleColon) || check(st, SpecType::ColonArrow) {
        let op = if check(st, SpecType::DoubleColon) { AccessOp::Namespace } else { AccessOp::Member };
        match expect_identifier(adv(st)) {
            Ok((member, st2)) => if smaller(st2, st) {
                p_postfix(st2, SpecExpr::Access { value: Box::new(e), operator: op, member })
            } else {
                Err(moved_on())
            },
            Err(err) => Err(err),
        }
    } else {
        Ok((e, st))
    }
}

/// The arguments of a call, up to (not including) the closing parenthesis.
pub open spec fn p_arguments(st: PState, acc: Seq<SpecExpr>) -> Result<(Seq<SpecExpr>, PState), SpecParseError>
    decreases rem(st), 9nat,
{
    if check(st, SpecType::RParen) {
        Ok((acc, st))
    } else {
        match p_expression(st) {
            Ok((a, st1)) => {
                let (comma, st2) = consume(st1, SpecType::Comma);
                if comma {
                    if smaller(st2, st) {
                        p_arguments(st2, acc.push(a))
                    } else {
                        Err(moved_on())
                    }
                } else {
                    Ok((acc.push(a), st2))
                }
            },
            Err(e) => Err(e),
        }
    }
}

// ---------------------------------------------------------------------------
// Statements
// ---------------------------------------------------------------------------

pub open spec fn p_statement(st: PState) -> Result<(SpecStmt, PState), SpecParseError>
    decreases rem(st), 12nat,
{
    match peek(st) {
        Some(SpecType::Mut) => p_let(st),
        Some(SpecType::Immut) => p_let(st),
        Some(SpecType::If) => p_if(st),
        Some(SpecType::While) => {
            let st1 = adv(st);
            if smaller(st1, st) {
                match p_expression(st1) {
                    Ok((c, st2)) => if smaller(st2, st) {
                        match p_block(st2) {
                            Ok((body, st3)) => Ok((SpecStmt::While { condition: c, body }, st3)),
                            Err(e) => Err(e),
                        }
                    } else {
                        Err(moved_on())
                    },
                    Err(e) => Err(e),
                }
            } else {
                Err(moved_on())
            }
        },
        Some(SpecType::Break) => Ok((SpecStmt::Break, adv(st))),
        Some(SpecType::Continue) => Ok((SpecStmt::Continue, adv(st))),
        Some(SpecType::Ret) => {
            let st1 = adv(st);
            if is_statement_end(st1) {
                Ok((SpecStmt::Return(None), st1))
            } else if smaller(st1, st) {
                match p_expression(st1) {
                    Ok((e, st2)) => Ok((SpecStmt::Return(Some(e)), st2)),
                    Err(e) => Err(e),
                }
            } else {
                Err(moved_on())
            }
        },
        Some(SpecType::LBrace) => match p_block(st) {
            Ok((b, st1)) => Ok((SpecStmt::Block(b), st1)),
            Err(e) => Err(e),
        },
        _ => match p_expression(st) {
            Ok((target, st1)) => {
                let (eq, st2) = consume(st1, SpecType::Equals);
                if eq {
                    if smaller(st2, st) {
                        match p_expression(st2) {
                            Ok((v, st3)) => Ok((SpecStmt::Assign { target, value: v }, st3)),
                            Err(e) => Err(e),
                        }
                    } else {
                        Err(moved_on())
                    }
                } else {
                    Ok((SpecStmt::Expr(target), st2))
                }
            },
            Err(e) => Err(e),
        },
    }
}

/// `mut name = value` or `immut name = value`.
pub open spec fn p_let(st: PState) -> Result<(SpecStmt, PState), SpecParseError>
    decreases rem(st), 11nat,
{
    let (mutable, st1) = consume(st, SpecType::Mut);
    let st2r = if mutable { Ok(st1) } else { expect(st1, SpecType::Immut) };
    match st2r {
        Ok(st2) => match expect_identifier(st2) {
            Ok((name, st3)) => match expect(st3, SpecType::Equals) {
                Ok(st4) => if smaller(st4, st) {
                    match p_expression(st4) {
                        Ok((v, st5)) => Ok((SpecStmt::Let { mutable, name, value: v }, st5)),
                        Err(e) => Err(e),
                    }
                } else {
                    Err(moved_on())
                },
                Err(e) => Err(e),
            },
            Err(e) => Err(e),
        },
        Err(e) => Err(e),
    }
}

pub open spec fn p_if(st: PState) -> Result<(SpecStmt, PState), SpecParseError>
    decreases rem(st), 10nat,
{
    match expect(st, SpecType::If) {
        Ok(st1) => if smaller(st1, st) {
            match p_expression(st1) {
                Ok((c, st2)) => if smaller(st2, st) {
                    match p_block(st2) {
                        Ok((body, st3)) => {
                            let st4 = skip_eol(st3);
                            if check(st4, SpecType::Else) {
                                let st5 = adv(st4);
                                if smaller(st5, st) {
                                    if check(st5, SpecType::If) {
                                        match p_if(st5) {
                                            Ok((s, st6)) => Ok(
                                                (SpecStmt::If { condition: c, body, else_body: Some(seq![s]) }, st6),
                                            ),
                                            Err(e) => Err(e),
                                        }
                                    } else {
                                        match p_block(st5) {
                                            Ok((eb, st6)) => Ok(
                                                (SpecStmt::If { condition: c, body, else_body: Some(eb) }, st6),
                                            ),
                                            Err(e) => Err(e),
                                        }
                                    }
                                } else {
                                    Err(moved_on())
                                }
                            } else {
                                Ok((SpecStmt::If { condition: c, body, else_body: None }, st4))
                            }
                        },
                        Err(e) => Err(e),
                    }
                } else {
                    Err(moved_on())
                },
                Err(e) => Err(e),
            }
        } else {
            Err(moved_on())
        },
        Err(e) => Err(e),
    }
}

pub open spec fn p_block(st: PState) -> Result<(Seq<SpecStmt>, PState), SpecParseError>
    decreases rem(st), 10nat,
{
    match expect(st, SpecType::LBrace) {
        Ok(st1) => if smaller(skip_eol(st1), st) {
            p_block_statements(skip_eol(st1), Seq::empty())
        } else {
            Err(moved_on())
        },
        Err(e) => Err(e),
    }
}

/// The statements of a block up to its closing brace, and the state after it.
pub open spec fn p_block_statements(st: PState, acc: Seq<SpecStmt>) -> Result<(Seq<SpecStmt>, PState), SpecParseError>
    decreases rem(st), 13nat,
{
    if check(st, SpecType::RBrace) {
        Ok((acc, adv(st)))
    } else {
        match p_statement(st) {
            Ok((s, st1)) => {
                let st2 = skip_eol(consume(st1, SpecType::EOL).1);
                if smaller(st2, st) {
                    p_block_statements(st2, acc.push(s))
                } else {
                    Err(moved_on())
                }
            },
            Err(e) => Err(e),
        }
    }
}

// ---------------------------------------------------------------------------
// Functions, objects, namespaces, items
// ---------------------------------------------------------------------------

/// Parameters up to (not including) the closing parenthesis. A parameter
/// marked `mut` or `immut` is recorded as mutable.
pub open spec fn p_parameters(st: PState, acc: Seq<SpecParameter>) -> Result<(Seq<SpecParameter>, PState), SpecParseError>
    decreases rem(st),
{
    if check(st, SpecType::RParen) {
        Ok((acc, st))
    } else {
        let (m, st1) = consume(st, SpecType::Mut);
        let (mutable, st2) = if m { (true, st1) } else { consume(st1, SpecType::Immut) };
        let (colon, st3) = consume(st2, SpecType::Colon);
        let (reference, st4) = if colon { consume(st3, SpecType::Ref) } else { (false, st3) };
        match expect_identifier(st4) {
            Ok((name, st5)) => {
                let p = SpecParameter { name, mutable, reference };
                let (comma, st6) = consume(st5, SpecType::Comma);
                if comma {
                    if smaller(st6, st) {
                        p_parameters(st6, acc.push(p))
                    } else {
                        Err(moved_on())
                    }
                } else {
                    Ok((acc.push(p), st6))
                }
            },
            Err(e) => Err(e),
        }
    }
}

pub open spec fn p_function_after_name(st: PState, name: Seq<char>, private: bool) -> Result<(SpecFunction, PState), SpecParseError>
    decreases rem(st), 1nat,
{
    match expect(st, SpecType::LParen) {
        Ok(st1) => match p_parameters(st1, Seq::empty()) {
            Ok((parameters, st2)) => match expect(st2, SpecType::RParen) {
                Ok(st3) => if smaller(st3, st) {
                    match p_block(st3) {
                        Ok((body, st4)) => Ok((SpecFunction { name, private, parameters, body }, st4)),
                        Err(e) => Err(e),
                    }
                } else {
                    Err(moved_on())
                },
                Err(e) => Err(e),
            },
            Err(e) => Err(e),
        },
        Err(e) => Err(e),
    }
}

pub open spec fn p_function(st: PState) -> Result<(SpecFunction, PState), SpecParseError>
    decreases rem(st), 15nat,
{
    let (private, st1) = consume(st, SpecType::Private);
    match expect(st1, SpecType::Func) {
        Ok(st2) => match expect_identifier(st2) {
            Ok((name, st3)) => if smaller(st3, st) {
                p_function_after_name(st3, name, private)
            } else {
                Err(moved_on())
            },
            Err(e) => Err(e),
        },
        Err(e) => Err(e),
    }
}

/// What an object's members give so far.
pub struct ObjectParts {
    pub fields: Seq<SpecField>,
    pub constructor: Option<SpecFunction>,
    pub methods: Seq<SpecFunction>,
}

/// The members of an object up to (not including) its closing brace.
pub open spec fn p_members(st: PState, parts: ObjectParts) -> Result<(ObjectParts, PState), SpecParseError>
    decreases rem(st), 1nat,
{
    if check(st, SpecType::RBrace) {
        Ok((parts, st))
    } else if check(st, SpecType::Constructor) {
        let st1 = adv(st);
        if smaller(st1, st) {
            match p_function_after_name(st1, "constructor"@, false) {
                Ok((f, st2)) => {
                    let st3 = skip_eol(st2);
                    if smaller(st3, st) {
                        p_members(st3, ObjectParts { constructor: Some(f), ..parts })
                    } else {
                        Err(moved_on())
                    }
                },
                Err(e) => Err(e),
            }
        } else {
            Err(moved_on())
        }
    } else {
        let (mutable, st2) = consume(st, SpecType::Mut);
        let st3 = consume(st2, SpecType::Func).1;
        let (colon, st4) = consume(st3, SpecType::Colon);
        let (private, st5) = if colon { consume(st4, SpecType::Private) } else { (false, st4) };
        match expect_identifier(st5) {
            Ok((name, st6)) => if smaller(st6, st) {
                if check(st6, SpecType::LParen) {
                    match p_function_after_name(st6, name, private) {
                        Ok((f, st7)) => {
                            let st8 = skip_eol(consume(st7, SpecType::EOL).1);
                            if smaller(st8, st) {
                                p_members(st8, ObjectParts { methods: parts.methods.push(f), ..parts })
                            } else {
                                Err(moved_on())
                            }
                        },
                        Err(e) => Err(e),
                    }
                } else {
                    let st8 = skip_eol(consume(st6, SpecType::EOL).1);
                    if smaller(st8, st) {
                        p_members(
                            st8,
                            ObjectParts { fields: parts.fields.push(SpecField { name, mutable, private }), ..parts },
                        )
                    } else {
                        Err(moved_on())
                    }
                }
            } else {
                Err(moved_on())
            },
            Err(e) => Err(e),
        }
    }
}

pub open spec fn p_object(st: PState) -> Result<(SpecObject, PState), SpecParseError>
    decreases rem(st), 15nat,
{
    match expect(st, SpecType::Object) {
        Ok(st1) => match expect_identifier(st1) {
            Ok((name, st2)) => match expect(st2, SpecType::LBrace) {
                Ok(st3) => if smaller(skip_eol(st3), st) {
                    match p_members(
                        skip_eol(st3),
                        ObjectParts { fields: Seq::empty(), constructor: None, methods: Seq::empty() },
                    ) {
                        Ok((parts, st4)) => match expect(st4, SpecType::RBrace) {
                            Ok(st5) => Ok(
                                (
                                    SpecObject {
                                        name,
                                        fields: parts.fields,
                                        constructor: parts.constructor,
                                        methods: parts.methods,
                                    },
                                    st5,
                                ),
                            ),
                            Err(e) => Err(e),
                        },
                        Err(e) => Err(e),
                    }
                } else {
                    Err(moved_on())
                },
                Err(e) => Err(e),
            },
            Err(e) => Err(e),
        },
        Err(e) => Err(e),
    }
}

pub open spec fn p_namespace(st: PState) -> Result<(SpecNamespace, PState), SpecParseError>
    decreases rem(st), 15nat,
{
    match expect(st, SpecType::Namespace) {
        Ok(st1) => match expect_identifier(st1) {
            Ok((name, st2)) => match expect(st2, SpecType::LBrace) {
                Ok(st3) => if smaller(skip_eol(st3), st) {
                    match p_namespace_items(skip_eol(st3), Seq::empty()) {
                        Ok((items, st4)) => match expect(st4, SpecType::RBrace) {
                            Ok(st5) => Ok((SpecNamespace { name, items }, st5)),
                            Err(e) => Err(e),
                        },
                        Err(e) => Err(e),
                    }
                } else {
                    Err(moved_on())
                },
                Err(e) => Err(e),
            },
            Err(e) => Err(e),
        },
        Err(e) => Err(e),
    }
}

/// The items of a namespace up to (not including) its closing brace.
pub open spec fn p_namespace_items(st: PState, acc: Seq<SpecItem>) -> Result<(Seq<SpecItem>, PState), SpecParseError>
    decreases rem(st), 21nat,
{
    if check(st, SpecType::RBrace) {
        Ok((acc, st))
    } else {
        match p_item(st) {
            Ok((i, st1)) => {
                let st2 = skip_eol(st1);
                if smaller(st2, st) {
                    p_namespace_items(st2, acc.push(i))
                } else {
                    Err(moved_on())
                }
            },
            Err(e) => Err(e),
        }
    }
}

/// An item. An include token is replaced by the tokens it holds, which are
/// then parsed in its place.
pub open spec fn p_item(st: PState) -> Result<(SpecItem, PState), SpecParseError>
    decreases rem(st), 20nat,
{
    match peek(st) {
        Some(SpecType::Get(inner)) => {
            let st1 = PState { tokens: splice(st.tokens, st.pos + 1, inner), pos: st.pos + 1 };
            let st2 = skip_eol(st1);
            if smaller(st2, st) {
                p_item(st2)
            } else {
                Err(moved_on())
            }
        },
        Some(SpecType::Entry) => if smaller(adv(st), st) {
            match p_block(adv(st)) {
                Ok((b, st1)) => Ok((SpecItem::Entry(b), st1)),
                Err(e) => Err(e),
            }
        } else {
            Err(moved_on())
        },
        Some(SpecType::Object) => match p_object(st) {
            Ok((o, st1)) => Ok((SpecItem::Object(o), st1)),
            Err(e) => Err(e),
        },
        Some(SpecType::Namespace) => match p_namespace(st) {
            Ok((n, st1)) => Ok((SpecItem::Namespace(n), st1)),
            Err(e) => Err(e),
        },
        Some(SpecType::Private) => match p_function(st) {
            Ok((f, st1)) => Ok((SpecItem::Function(f), st1)),
            Err(e) => Err(e),
        },
        Some(SpecType::Func) => match p_function(st) {
            Ok((f, st1)) => Ok((SpecItem::Function(f), st1)),
            Err(e) => Err(e),
        },
        _ => match p_statement(st) {
            Ok((s, st1)) => Ok((SpecItem::Statement(s), st1)),
            Err(e) => Err(e),
        },
    }
}

/// Items until the tokens run out, with blank lines between them skipped.
pub open spec fn p_items(st: PState, acc: Seq<SpecItem>) -> Result<Seq<SpecItem>, SpecParseError>
    decreases rem(st),
{
    if at_end(st) {
        Ok(acc)
    } else {
        match p_item(st) {
            Ok((i, st1)) => {
                let st2 = skip_eol(st1);
                if smaller(st2, st) {
                    p_items(st2, acc.push(i))
                } else {
                    Err(moved_on())
                }
            },
            Err(e) => Err(e),
        }
    }
}

/// What the parser makes of the tokens from a state on.
pub open spec fn p_parse(st: PState) -> Result<SpecProgram, SpecParseError> {
    match p_items(skip_eol(st), Seq::empty()) {
        Ok(items) => Ok(SpecProgram { items }),
        Err(e) => Err(e),
    }
}

// ---------------------------------------------------------------------------
// How the work left changes
// ---------------------------------------------------------------------------

pub proof fn lemma_seq_weight_add(a: Seq<SpecToken>, b: Seq<SpecToken>)
    ensures
        seq_weight(a + b) == seq_weight(a) + seq_weight(b),
    decreases a.len(),
{
    if a.len() > 0 {
        assert((a + b).drop_first() =~= a.drop_first() + b);
        assert((a + b)[0] == a[0]);
        lemma_seq_weight_add(a.drop_first(), b);
    } else {
        assert(a + b =~= b);
    }
}

/// Moving past a token leaves its weight less work.
pub proof fn lemma_adv(st: PState)
    requires
        0 <= st.pos < st.tokens.len(),
    ensures
        rem(adv(st)) + token_weight(st.tokens[st.pos]) == rem(st),
        smaller(adv(st), st),
{
    let s = st.tokens.subrange(st.pos, st.tokens.len() as int);
    assert(s.drop_first() =~= st.tokens.subrange(st.pos + 1, st.tokens.len() as int));
    assert(s[0] == st.tokens[st.pos]);
}

/// Skipping line ends leaves no more work, keeps the tokens, and stays in range.
pub proof fn lemma_skip_eol(st: PState)
    requires
        wf(st),
    ensures
        rem(skip_eol(st)) <= rem(st),
        skip_eol(st).tokens == st.tokens,
        wf(skip_eol(st)),
        st.pos <= skip_eol(st).pos,
    decreases st.tokens.len() - st.pos,
{
    if check(st, SpecType::EOL) {
        lemma_adv(st);
        lemma_skip_eol(adv(st));
    }
}

/// Putting the tokens of an include in its place leaves one less unit of work.
pub proof fn lemma_splice(st: PState, inner: Seq<SpecToken>)
    requires
        0 <= st.pos < st.tokens.len(),
        st.tokens[st.pos].token_type == SpecType::Get(inner),
    ensures
        ({
            let st1 = PState { tokens: splice(st.tokens, st.pos + 1, inner), pos: st.pos + 1 };
            &&& rem(st1) + 1 == rem(st)
            &&& wf(st1)
        }),
{
    let ts = st.tokens;
    let st1 = PState { tokens: splice(ts, st.pos + 1, inner), pos: st.pos + 1 };
    assert(st1.tokens.subrange(st.pos + 1, st1.tokens.len() as int) =~= inner + ts.subrange(st.pos + 1, ts.len() as int));
    lemma_seq_weight_add(inner, ts.subrange(st.pos + 1, ts.len() as int));
    lemma_adv(st);
}

/// Moving past a token if it has a given variant leaves no more work.
pub broadcast proof fn lemma_consume_rem(st: PState, t: SpecType)
    ensures
        rem((#[trigger] consume(st, t)).1) <= rem(st),
        consume(st, t).1.tokens == st.tokens,
        wf(st) ==> wf(consume(st, t).1),
        consume(st, t).0 ==> smaller(consume(st, t).1, st),
{
    if check(st, t) {
        lemma_adv(st);
    }
}

/// An include token in item position parses as the tokens it holds, put in
/// its place right after it (with the line ends they open with skipped).
pub proof fn lemma_include_item(st: PState, inner: Seq<SpecToken>)
    requires
        wf(st),
        peek(st) == Some(SpecType::Get(inner)),
    ensures
        p_item(st) == p_item(skip_eol(PState { tokens: splice(st.tokens, st.pos + 1, inner), pos: st.pos + 1 })),
{
    lemma_splice(st, inner);
    lemma_skip_eol(PState { tokens: splice(st.tokens, st.pos + 1, inner), pos: st.pos + 1 });
}

} // verus!
