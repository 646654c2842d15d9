//! The parser: from tokens to a program.
use vstd::prelude::*;
use crate::ast::{
    AccessOp, BinaryOp, Expr, Field, Function, Item, Namespace, Object, Parameter, Program, Stmt,
    UnaryOp, SpecExpr, SpecStmt, SpecItem, SpecFunction, SpecField, SpecParameter, exprs_view,
    stmt_view, stmts_view, items_view, function_view, field_view, parameter_view, lemma_exprs_view,
    lemma_stmts_view, lemma_items_view,
};
use crate::token::{
    Token, Type, SpecType, token_view, tokens_view, lemma_tokens_view, duplicate_tokens,
};
use crate::format::simple_type_tag;
use crate::text::{describe_error, place_message};

use crate::parser_spec::{
    PState, SpecParseError, rem, smaller, wf, peek, check, adv, consume, at_end, skip_eol,
    is_statement_end, error_at, kind_name, expect, expect_identifier, binop, splice, lemma_adv,
    lemma_skip_eol, lemma_splice, p_expression, p_binary, p_binary_loop, p_unary, p_primary,
    p_postfix, p_arguments, p_statement, p_parameters, p_members, ObjectParts,
};

verus! {

broadcast use lemma_exprs_view, lemma_stmts_view, lemma_items_view, lemma_tokens_view,
    crate::parser_spec::lemma_consume_rem;

/// A parse error with the place of the token it was reported at.
#[derive(Debug, Clone, PartialEq)]
pub struct ParseError {
    pub message: String,
    pub line: usize,
    pub column: usize,
    pub file: String,
}

impl View for ParseError {
    type V = SpecParseError;

    open spec fn view(&self) -> SpecParseError {
        SpecParseError { message: self.message@, line: self.line, column: self.column, file: self.file@ }
    }
}

impl ParseError {
    /// The error as one line: the message, then where it was reported.
    pub fn describe(&self) -> (r: String)
        ensures
            r@ == place_message(self.message@, self.file@, self.line as nat, self.column as nat),
    {
        describe_error(self.message.as_str(), self.file.as_str(), self.line, self.column)
    }
}

/// A parser over a list of tokens.
pub struct Parser {
    tokens: Vec<Token>,
    position: usize,
}

impl View for Parser {
    type V = PState;

    closed spec fn view(&self) -> PState {
        PState { tokens: tokens_view(self.tokens@), pos: self.position as int }
    }
}

/// The parser's outcome agrees with the grammar: the same value and the same
/// state after it, or the same error.
pub open spec fn parsed<V>(expected: Result<(V, PState), SpecParseError>, got: Result<V, SpecParseError>, after: PState) -> bool {
    match expected {
        Ok((v, st)) => got == Ok::<V, SpecParseError>(v) && after == st,
        Err(e) => got == Err::<V, SpecParseError>(e),
    }
}

pub open spec fn pviewed<T: View>(r: Result<T, ParseError>) -> Result<T::V, SpecParseError> {
    match r {
        Ok(v) => Ok(v@),
        Err(e) => Err(e@),
    }
}

pub open spec fn pstmts(r: Result<Vec<Stmt>, ParseError>) -> Result<Seq<SpecStmt>, SpecParseError> {
    match r {
        Ok(v) => Ok(stmts_view(v@)),
        Err(e) => Err(e@),
    }
}

pub open spec fn pexprs(r: Result<Vec<Expr>, ParseError>) -> Result<Seq<SpecExpr>, SpecParseError> {
    match r {
        Ok(v) => Ok(exprs_view(v@)),
        Err(e) => Err(e@),
    }
}

pub open spec fn pitems(r: Result<Vec<Item>, ParseError>) -> Result<Seq<SpecItem>, SpecParseError> {
    match r {
        Ok(v) => Ok(items_view(v@)),
        Err(e) => Err(e@),
    }
}

pub open spec fn has_payload(t: SpecType) -> bool {
    ||| t is Identifier
    ||| t is Integer
    ||| t is Float
    ||| t is String
    ||| t is Char
    ||| t is Boolean
    ||| t is Get
}

/// The name of a token kind without payload.
fn kind_str(t: &Type) -> (r: &'static str)
    requires
        !has_payload(t@),
    ensures
        r@ == kind_name(t@),
{
    match t {
        Type::EOL => "EOL",
        Type::EOF => "EOF",
        Type::Mut => "Mut",
        Type::Immut => "Immut",
        Type::Ref => "Ref",
        Type::Func => "Func",
        Type::Private => "Private",
        Type::Colon => "Colon",
        Type::DoubleColon => "DoubleColon",
        Type::ColonArrow => "ColonArrow",
        Type::If => "If",
        Type::Else => "Else",
        Type::While => "While",
        Type::Break => "Break",
        Type::Continue => "Continue",
        Type::Ret => "Ret",
        Type::Object => "Object",
        Type::Namespace => "Namespace",
        Type::Entry => "Entry",
        Type::Constructor => "Constructor",
        Type::LParen => "LParen",
        Type::RParen => "RParen",
        Type::LBrace => "LBrace",
        Type::RBrace => "RBrace",
        Type::Comma => "Comma",
        Type::Equals => "Equals",
        Type::DoubleEquals => "DoubleEquals",
        Type::BangEquals => "BangEquals",
        Type::LessThan => "LessThan",
        Type::GreaterThan => "GreaterThan",
        Type::LessThanOrEqual => "LessThanOrEqual",
        Type::GreaterThanOrEqual => "GreaterThanOrEqual",
        Type::Plus => "Plus",
        Type::Minus => "Minus",
        Type::Star => "Star",
        Type::Slash => "Slash",
        Type::Percent => "Percent",
        Type::Exponent => "Exponent",
        Type::Bang => "Bang",
        Type::DoubleAmpersand => "DoubleAmpersand",
        _ => "DoublePipe",
    }
}

impl Parser {
    pub closed spec fn inv(&self) -> bool {
        self.position <= self.tokens@.len()
    }

    /// A parser at the first of the tokens.
    pub fn new(tokens: Vec<Token>) -> (r: Self)
        ensures
            r@ == (PState { tokens: tokens_view(tokens@), pos: 0 }),
            r.inv(),
    {
        Self { tokens, position: 0 }
    }

    proof fn lemma_wf(&self)
        requires
            self.inv(),
        ensures
            wf(self@),
            self@.tokens.len() == self.tokens@.len(),
    {
    }

    fn peek_type(&self) -> (r: Option<&Type>)
        requires
            self.inv(),
        ensures
            match peek(self@) {
                Some(t) => r is Some && r->0@ == t,
                None => r is None,
            },
    {
        if self.position < self.tokens.len() {
            Some(&self.tokens[self.position].token_type)
        } else {
            None
        }
    }

    fn check(&self, expected: &Type) -> (r: bool)
        requires
            self.inv(),
        ensures
            r == check(self@, expected@),
    {
        if self.position < self.tokens.len() {
            simple_type_tag(&self.tokens[self.position].token_type) == simple_type_tag(expected)
        } else {
            false
        }
    }

    fn advance(&mut self)
        requires
            old(self).inv(),
            old(self).position < old(self).tokens@.len(),
        ensures
            final(self).inv(),
            final(self)@ == adv(old(self)@),
    {
        proof {
            assert(self.tokens.len() == self.tokens@.len());
        }
        self.position = self.position + 1;
    }

    fn advance_type(&mut self) -> (r: Option<Type>)
        requires
            old(self).inv(),
        ensures
            final(self).inv(),
            if old(self).position < old(self).tokens@.len() {
                &&& r is Some
                &&& r->0@ == old(self)@.tokens[old(self)@.pos].token_type
                &&& final(self)@ == adv(old(self)@)
            } else {
                r is None && final(self)@ == old(self)@
            },
    {
        if self.position < self.tokens.len() {
            let t = self.tokens[self.position].token_type.duplicate();
            proof {
                assert(tokens_view(self.tokens@)[self.position as int] == token_view(self.tokens@[self.position as int]));
            }
            self.position = self.position + 1;
            Some(t)
        } else {
            None
        }
    }

    fn consume_simple(&mut self, expected: Type) -> (r: bool)
        requires
            old(self).inv(),
        ensures
            final(self).inv(),
            (r, final(self)@) == consume(old(self)@, expected@),
    {
        if self.check(&expected) {
            self.advance();
            true
        } else {
            false
        }
    }

    fn expect_simple(&mut self, expected: Type) -> (r: Result<(), ParseError>)
        requires
            old(self).inv(),
            !has_payload(expected@),
        ensures
            final(self).inv(),
            match expect(old(self)@, expected@) {
                Ok(st) => r is Ok && final(self)@ == st,
                Err(e) => r is Err && r->Err_0@ == e,
            },
    {
        if self.check(&expected) {
            self.advance();
            Ok(())
        } else {
            let message = String::from_str("expected ").concat(kind_str(&expected));
            Err(self.error(message))
        }
    }

    fn expect_identifier(&mut self) -> (r: Result<String, ParseError>)
        requires
            old(self).inv(),
        ensures
            final(self).inv(),
            parsed(expect_identifier(old(self)@), pviewed(r), final(self)@),
    {
        match self.advance_type() {
            Some(Type::Identifier(name)) => Ok(name),
            _ => Err(self.error(String::from_str("expected an identifier"))),
        }
    }

    fn at_end(&self) -> (r: bool)
        requires
            self.inv(),
        ensures
            r == at_end(self@),
    {
        self.position >= self.tokens.len()
    }

    fn skip_eol(&mut self)
        requires
            old(self).inv(),
        ensures
            final(self).inv(),
            final(self)@ == skip_eol(old(self)@),
    {
        while self.consume_simple(Type::EOL)
            invariant
                self.inv(),
                skip_eol(self@) == skip_eol(old(self)@),
            decreases self.tokens@.len() - self.position,
        {
        }
    }

    fn consume_eol(&mut self) -> (r: bool)
        requires
            old(self).inv(),
        ensures
            final(self).inv(),
            (r, final(self)@) == consume(old(self)@, SpecType::EOL),
    {
        self.consume_simple(Type::EOL)
    }

    fn is_statement_end(&self) -> (r: bool)
        requires
            self.inv(),
        ensures
            r == is_statement_end(self@),
    {
        self.at_end() || self.check(&Type::EOL) || self.check(&Type::RBrace)
    }

    fn error(&self, message: String) -> (r: ParseError)
        requires
            self.inv(),
        ensures
            r@ == error_at(self@, message@),
    {
        if self.position < self.tokens.len() {
            let token = &self.tokens[self.position];
            ParseError { message, line: token.line, column: token.column, file: token.file.clone() }
        } else if self.tokens.len() > 0 {
            let token = &self.tokens[self.tokens.len() - 1];
            ParseError { message, line: token.line, column: token.column, file: token.file.clone() }
        } else {
            ParseError { message, line: 0, column: 0, file: String::new() }
        }
    }

    fn binary_operator(&self) -> (r: Option<(BinaryOp, u8)>)
        requires
            self.inv(),
        ensures
            r == binop(self@),
    {
        match self.peek_type() {
            Some(Type::DoublePipe) => Some((BinaryOp::Or, 1)),
            Some(Type::DoubleAmpersand) => Some((BinaryOp::And, 2)),
            Some(Type::DoubleEquals) => Some((BinaryOp::Equal, 3)),
            Some(Type::BangEquals) => Some((BinaryOp::NotEqual, 3)),
            Some(Type::LessThan) => Some((BinaryOp::Less, 4)),
            Some(Type::LessThanOrEqual) => Some((BinaryOp::LessOrEqual, 4)),
            Some(Type::GreaterThan) => Some((BinaryOp::Greater, 4)),
            Some(Type::GreaterThanOrEqual) => Some((BinaryOp::GreaterOrEqual, 4)),
            Some(Type::Plus) => Some((BinaryOp::Add, 5)),
            Some(Type::Minus) => Some((BinaryOp::Subtract, 5)),
            Some(Type::Star) => Some((BinaryOp::Multiply, 6)),
            Some(Type::Slash) => Some((BinaryOp::Divide, 6)),
            Some(Type::Percent) => Some((BinaryOp::Remainder, 6)),
            Some(Type::Exponent) => Some((BinaryOp::Exponent, 7)),
            _ => None,
        }
    }

    /// Puts `inner` into the token list at the position.
    fn insert_tokens(&mut self, inner: Vec<Token>)
        requires
            old(self).inv(),
        ensures
            final(self).inv(),
            final(self)@ == (PState {
                tokens: splice(old(self)@.tokens, old(self)@.pos, tokens_view(inner@)),
                pos: old(self)@.pos,
            }),
    {
        let ghost before = self.tokens@;
        let p = self.position;
        let mut rest = self.tokens.split_off(p);
        let mut inner = inner;
        let ghost ins = inner@;
        self.tokens.append(&mut inner);
        self.tokens.append(&mut rest);
        proof {
            assert(self.tokens@ =~= before.take(p as int) + ins + before.skip(p as int));
            assert(tokens_view(self.tokens@) =~= splice(tokens_view(before), p as int, tokens_view(ins)));
        }
    }
}

impl Parser {
    pub(crate) fn parse_expression(&mut self) -> (r: Result<Expr, ParseError>)
        requires
            old(self).inv(),
        ensures
            final(self).inv(),
            parsed(p_expression(old(self)@), pviewed(r), final(self)@),
            r is Ok ==> smaller(final(self)@, old(self)@),
        decreases rem(old(self)@), 8nat,
    {
        self.parse_binary(0)
    }

    pub(crate) fn parse_binary(&mut self, minimum_precedence: u8) -> (r: Result<Expr, ParseError>)
        requires
            old(self).inv(),
        ensures
            final(self).inv(),
            parsed(p_binary(old(self)@, minimum_precedence), pviewed(r), final(self)@),
            r is Ok ==> smaller(final(self)@, old(self)@),
        decreases rem(old(self)@), 7nat,
    {
        let ghost st0 = self@;
        let mut left = self.parse_unary()?;
        loop
            invariant
                self.inv(),
                st0 == old(self)@,
                smaller(self@, st0),
                p_binary(st0, minimum_precedence) == p_binary_loop(self@, left@, minimum_precedence),
            ensures
                self.inv(),
                smaller(self@, st0),
                p_binary(st0, minimum_precedence) == Ok::<(SpecExpr, PState), SpecParseError>((left@, self@)),
            decreases rem(self@),
        {
            let ghost st = self@;
            let Some((operator, precedence)) = self.binary_operator() else {
                break;
            };
            if precedence < minimum_precedence {
                break;
            }
            proof {
                self.lemma_wf();
                lemma_adv(st);
            }
            self.advance();
            let next_minimum: u8 = if operator == BinaryOp::Exponent {
                precedence
            } else {
                precedence + 1
            };
            let right = self.parse_binary(next_minimum)?;
            left = Expr::Binary { left: Box::new(left), operator, right: Box::new(right) };
        }
        Ok(left)
    }

    pub(crate) fn parse_unary(&mut self) -> (r: Result<Expr, ParseError>)
        requires
            old(self).inv(),
        ensures
            final(self).inv(),
            parsed(p_unary(old(self)@), pviewed(r), final(self)@),
            r is Ok ==> smaller(final(self)@, old(self)@),
        decreases rem(old(self)@), 6nat,
    {
        proof {
            self.lemma_wf();
        }
        match self.peek_type() {
            Some(Type::Bang) => {
                proof {
                    lemma_adv(self@);
                }
                self.advance();
                let value = self.parse_unary()?;
                Ok(Expr::Unary { operator: UnaryOp::Not, value: Box::new(value) })
            },
            Some(Type::Minus) => {
                proof {
                    lemma_adv(self@);
                }
                self.advance();
                let value = self.parse_unary()?;
                Ok(Expr::Unary { operator: UnaryOp::Negate, value: Box::new(value) })
            },
            _ => self.parse_primary(),
        }
    }

    #[verifier::rlimit(40)]
    pub(crate) fn parse_primary(&mut self) -> (r: Result<Expr, ParseError>)
        requires
            old(self).inv(),
        ensures
            final(self).inv(),
            parsed(p_primary(old(self)@), pviewed(r), final(self)@),
            r is Ok ==> smaller(final(self)@, old(self)@),
        decreases rem(old(self)@), 5nat,
    {
        let ghost st0 = self@;
        proof {
            self.lemma_wf();
            if 0 <= st0.pos < st0.tokens.len() {
                lemma_adv(st0);
            }
        }
        let mut expression = match self.advance_type() {
            Some(Type::Integer(value)) => Expr::Integer(value),
            Some(Type::Float(value)) => Expr::Float(value),
            Some(Type::String(value)) => Expr::String(value),
            Some(Type::Char(value)) => Expr::Char(value),
            Some(Type::Boolean(value)) => Expr::Boolean(value),
            Some(Type::Identifier(value)) => Expr::Name(value),
            Some(Type::LParen) => {
                let value = self.parse_expression()?;
                let ghost st2 = self@;
                self.expect_simple(Type::RParen)?;
                proof {
                    lemma_adv(st2);
                }
                Expr::Group(Box::new(value))
            },
            _ => return Err(self.error(String::from_str("expected an expression"))),
        };
        loop
            invariant
                self.inv(),
                st0 == old(self)@,
                smaller(self@, st0),
                p_primary(st0) == p_postfix(self@, expression@),
            ensures
                self.inv(),
                smaller(self@, st0),
                p_primary(st0) == Ok::<(SpecExpr, PState), SpecParseError>((expression@, self@)),
            decreases rem(self@),
        {
            let ghost st = self@;
            proof {
                self.lemma_wf();
                if 0 <= st.pos < st.tokens.len() {
                    lemma_adv(st);
                }
            }
            if self.consume_simple(Type::LParen) {
                let arguments = self.parse_arguments()?;
                let ghost st2 = self@;
                self.expect_simple(Type::RParen)?;
                proof {
                    lemma_adv(st2);
                }
                expression = Expr::Call { callee: Box::new(expression), arguments };
            } else {
                let operator = if self.consume_simple(Type::DoubleColon) {
                    AccessOp::Namespace
                } else if self.consume_simple(Type::ColonArrow) {
                    AccessOp::Member
                } else {
                    break;
                };
                let member = self.expect_identifier()?;
                proof {
                    lemma_adv(adv(st));
                }
                expression = Expr::Access { value: Box::new(expression), operator, member };
            }
        }
        Ok(expression)
    }

    /// The arguments of a call, up to the closing parenthesis.
    pub(crate) fn parse_arguments(&mut self) -> (r: Result<Vec<Expr>, ParseError>)
        requires
            old(self).inv(),
        ensures
            final(self).inv(),
            parsed(p_arguments(old(self)@, Seq::empty()), pexprs(r), final(self)@),
            r is Ok ==> rem(final(self)@) <= rem(old(self)@),
        decreases rem(old(self)@), 9nat,
    {
        let ghost st0 = self@;
        let mut arguments: Vec<Expr> = Vec::new();
        proof {
            assert(exprs_view(arguments@) =~= Seq::<SpecExpr>::empty());
        }
        while !self.check(&Type::RParen)
            invariant_except_break
                self.inv(),
                st0 == old(self)@,
                rem(self@) <= rem(st0),
                p_arguments(st0, Seq::empty()) == p_arguments(self@, exprs_view(arguments@)),
            ensures
                self.inv(),
                rem(self@) <= rem(st0),
                p_arguments(st0, Seq::empty()) == Ok::<(Seq<SpecExpr>, PState), SpecParseError>((exprs_view(arguments@), self@)),
            decreases rem(self@),
        {
            let ghost st = self@;
            let ghost before = arguments@;
            let argument = self.parse_expression()?;
            arguments.push(argument);
            proof {
                assert(arguments@.drop_last() =~= before);
                self.lemma_wf();
                let st1 = self@;
                if check(st1, SpecType::Comma) {
                    lemma_adv(st1);
                }
            }
            if !self.consume_simple(Type::Comma) {
                break;
            }
        }
        Ok(arguments)
    }
}

impl Parser {
    #[verifier::rlimit(60)]
    pub(crate) fn parse_statement(&mut self) -> (r: Result<Stmt, ParseError>)
        requires
            old(self).inv(),
        ensures
            final(self).inv(),
            parsed(p_statement(old(self)@), pviewed(r), final(self)@),
            r is Ok ==> smaller(final(self)@, old(self)@),
        decreases rem(old(self)@), 12nat,
    {
        let ghost st0 = self@;
        proof {
            self.lemma_wf();
            if 0 <= st0.pos < st0.tokens.len() {
                lemma_adv(st0);
            }
        }
        match self.peek_type() {
            Some(Type::Mut) | Some(Type::Immut) => self.parse_let(),
            Some(Type::If) => self.parse_if(),
            Some(Type::While) => {
                self.advance();
                let condition = self.parse_expression()?;
                let body = self.parse_block()?;
                Ok(Stmt::While { condition, body })
            },
            Some(Type::Break) => {
                self.advance();
                Ok(Stmt::Break)
            },
            Some(Type::Continue) => {
                self.advance();
                Ok(Stmt::Continue)
            },
            Some(Type::Ret) => {
                self.advance();
                if self.is_statement_end() {
                    Ok(Stmt::Return(None))
                } else {
                    Ok(Stmt::Return(Some(self.parse_expression()?)))
                }
            },
            Some(Type::LBrace) => Ok(Stmt::Block(self.parse_block()?)),
            _ => {
                let target = self.parse_expression()?;
                let ghost st1 = self@;
                proof {
                    self.lemma_wf();
                    if check(st1, SpecType::Equals) {
                        lemma_adv(st1);
                    }
                }
                if self.consume_simple(Type::Equals) {
                    let value = self.parse_expression()?;
                    Ok(Stmt::Assign { target, value })
                } else {
                    Ok(Stmt::Expr(target))
                }
            },
        }
    }

    /// `mut name = value` or `immut name = value`.
    pub(crate) fn parse_let(&mut self) -> (r: Result<Stmt, ParseError>)
        requires
            old(self).inv(),
        ensures
            final(self).inv(),
            parsed(crate::parser_spec::p_let(old(self)@), pviewed(r), final(self)@),
            r is Ok ==> smaller(final(self)@, old(self)@),
        decreases rem(old(self)@), 11nat,
    {
        let ghost st0 = self@;
        proof {
            self.lemma_wf();
            if 0 <= st0.pos < st0.tokens.len() {
                lemma_adv(st0);
            }
        }
        let mutable = self.consume_simple(Type::Mut);
        if !mutable {
            self.expect_simple(Type::Immut)?;
        }
        let ghost st2 = self@;
        let name = self.expect_identifier()?;
        let ghost st3 = self@;
        self.expect_simple(Type::Equals)?;
        proof {
            lemma_adv(st2);
            lemma_adv(st3);
        }
        let value = self.parse_expression()?;
        Ok(Stmt::Let { mutable, name, value })
    }

    #[verifier::rlimit(40)]
    pub(crate) fn parse_if(&mut self) -> (r: Result<Stmt, ParseError>)
        requires
            old(self).inv(),
        ensures
            final(self).inv(),
            parsed(crate::parser_spec::p_if(old(self)@), pviewed(r), final(self)@),
            r is Ok ==> smaller(final(self)@, old(self)@),
        decreases rem(old(self)@), 10nat,
    {
        let ghost st0 = self@;
        proof {
            self.lemma_wf();
            if 0 <= st0.pos < st0.tokens.len() {
                lemma_adv(st0);
            }
        }
        self.expect_simple(Type::If)?;
        let condition = self.parse_expression()?;
        let body = self.parse_block()?;
        let ghost st3 = self@;
        self.skip_eol();
        let ghost st4 = self@;
        proof {
            self.lemma_wf();
            lemma_skip_eol(st3);
            if check(st4, SpecType::Else) {
                lemma_adv(st4);
            }
        }
        let else_body = if self.consume_simple(Type::Else) {
            if self.check(&Type::If) {
                let else_if_stmt = self.parse_if()?;
                let mut statements: Vec<Stmt> = Vec::new();
                statements.push(else_if_stmt);
                proof {
                    assert(statements@.drop_last() =~= Seq::<Stmt>::empty());
                    assert(stmts_view(statements@) =~= seq![stmt_view(else_if_stmt)]);
                }
                Some(statements)
            } else {
                Some(self.parse_block()?)
            }
        } else {
            None
        };
        Ok(Stmt::If { condition, body, else_body })
    }

    pub(crate) fn parse_block(&mut self) -> (r: Result<Vec<Stmt>, ParseError>)
        requires
            old(self).inv(),
        ensures
            final(self).inv(),
            parsed(crate::parser_spec::p_block(old(self)@), pstmts(r), final(self)@),
            r is Ok ==> smaller(final(self)@, old(self)@),
        decreases rem(old(self)@), 10nat,
    {
        let ghost st0 = self@;
        proof {
            self.lemma_wf();
            if 0 <= st0.pos < st0.tokens.len() {
                lemma_adv(st0);
            }
        }
        self.expect_simple(Type::LBrace)?;
        let mut statements: Vec<Stmt> = Vec::new();
        let ghost st1 = self@;
        self.skip_eol();
        proof {
            self.lemma_wf();
            lemma_skip_eol(st1);
            assert(stmts_view(statements@) =~= Seq::<SpecStmt>::empty());
        }
        while !self.check(&Type::RBrace)
            invariant
                self.inv(),
                st0 == old(self)@,
                smaller(self@, st0),
                crate::parser_spec::p_block(st0) == crate::parser_spec::p_block_statements(self@, stmts_view(statements@)),
            decreases rem(self@),
        {
            let ghost st = self@;
            let ghost before = statements@;
            let statement = self.parse_statement()?;
            let ghost st1 = self@;
            proof {
                self.lemma_wf();
                if check(st1, SpecType::EOL) {
                    lemma_adv(st1);
                }
            }
            self.consume_eol();
            let ghost st2 = self@;
            self.skip_eol();
            statements.push(statement);
            proof {
                self.lemma_wf();
                lemma_skip_eol(st2);
                assert(statements@.drop_last() =~= before);
            }
        }
        let ghost st = self@;
        proof {
            self.lemma_wf();
            lemma_adv(st);
        }
        self.expect_simple(Type::RBrace)?;
        Ok(statements)
    }
}

/// The model of an object's members read so far.
pub open spec fn parts_view(fields: Seq<Field>, constructor: Option<Function>, methods: Seq<Function>) -> ObjectParts {
    ObjectParts {
        fields: fields.map_values(|f: Field| field_view(f)),
        constructor: match constructor {
            Some(c) => Some(function_view(c)),
            None => None,
        },
        methods: methods.map_values(|m: Function| function_view(m)),
    }
}

impl Parser {
    /// The parameters of a function, up to the closing parenthesis.
    fn parse_parameters(&mut self) -> (r: Result<Vec<Parameter>, ParseError>)
        requires
            old(self).inv(),
        ensures
            final(self).inv(),
            parsed(
                p_parameters(old(self)@, Seq::empty()),
                (match r {
                    Ok(v) => Ok(v@.map_values(|p: Parameter| parameter_view(p))),
                    Err(e) => Err(e@),
                }),
                final(self)@,
            ),
            r is Ok ==> rem(final(self)@) <= rem(old(self)@),
    {
        let ghost st0 = self@;
        let mut parameters: Vec<Parameter> = Vec::new();
        proof {
            assert(parameters@.map_values(|p: Parameter| parameter_view(p)) =~= Seq::<SpecParameter>::empty());
        }
        while !self.check(&Type::RParen)
            invariant_except_break
                self.inv(),
                st0 == old(self)@,
                rem(self@) <= rem(st0),
                p_parameters(st0, Seq::empty()) == p_parameters(self@, parameters@.map_values(|p: Parameter| parameter_view(p))),
            ensures
                self.inv(),
                rem(self@) <= rem(st0),
                p_parameters(st0, Seq::empty()) == Ok::<(Seq<SpecParameter>, PState), SpecParseError>(
                    (parameters@.map_values(|p: Parameter| parameter_view(p)), self@),
                ),
            decreases rem(self@),
        {
            let ghost st = self@;
            let ghost before = parameters@;
            proof {
                self.lemma_wf();
            }
            let mutable = self.consume_simple(Type::Mut) || self.consume_simple(Type::Immut);
            let reference = if self.consume_simple(Type::Colon) {
                self.consume_simple(Type::Ref)
            } else {
                false
            };
            let ghost st4 = self@;
            let name = self.expect_identifier()?;
            let parameter = Parameter { name, mutable, reference };
            parameters.push(parameter);
            let ghost st5 = self@;
            proof {
                assert(parameters@.map_values(|p: Parameter| parameter_view(p)) =~= before.map_values(|p: Parameter| parameter_view(p)).push(parameter_view(parameter)));
                self.lemma_wf();
                crate::parser_spec::lemma_consume_rem(st, SpecType::Mut);
                crate::parser_spec::lemma_consume_rem(consume(st, SpecType::Mut).1, SpecType::Immut);
                lemma_adv(st4);
                if check(st5, SpecType::Comma) {
                    lemma_adv(st5);
                }
            }
            if !self.consume_simple(Type::Comma) {
                break;
            }
        }
        Ok(parameters)
    }

    pub(crate) fn parse_function_after_name(&mut self, name: String, private: bool) -> (r: Result<Function, ParseError>)
        requires
            old(self).inv(),
        ensures
            final(self).inv(),
            parsed(crate::parser_spec::p_function_after_name(old(self)@, name@, private), pviewed(r), final(self)@),
            r is Ok ==> smaller(final(self)@, old(self)@),
        decreases rem(old(self)@), 1nat,
    {
        let ghost st0 = self@;
        proof {
            self.lemma_wf();
            if 0 <= st0.pos < st0.tokens.len() {
                lemma_adv(st0);
            }
        }
        self.expect_simple(Type::LParen)?;
        let parameters = self.parse_parameters()?;
        let ghost st2 = self@;
        self.expect_simple(Type::RParen)?;
        proof {
            lemma_adv(st2);
        }
        let body = self.parse_block()?;
        Ok(Function { name, private, parameters, body })
    }

    pub(crate) fn parse_function(&mut self) -> (r: Result<Function, ParseError>)
        requires
            old(self).inv(),
        ensures
            final(self).inv(),
            parsed(crate::parser_spec::p_function(old(self)@), pviewed(r), final(self)@),
            r is Ok ==> smaller(final(self)@, old(self)@),
        decreases rem(old(self)@), 15nat,
    {
        let ghost st0 = self@;
        proof {
            self.lemma_wf();
            crate::parser_spec::lemma_consume_rem(st0, SpecType::Private);
        }
        let private = self.consume_simple(Type::Private);
        let ghost st1 = self@;
        self.expect_simple(Type::Func)?;
        let ghost st2 = self@;
        let name = self.expect_identifier()?;
        proof {
            lemma_adv(st1);
            lemma_adv(st2);
        }
        self.parse_function_after_name(name, private)
    }

    /// The members of an object, up to its closing brace.
    #[verifier::rlimit(60)]
    fn parse_members(&mut self) -> (r: Result<(Vec<Field>, Option<Function>, Vec<Function>), ParseError>)
        requires
            old(self).inv(),
        ensures
            final(self).inv(),
            parsed(
                p_members(old(self)@, parts_view(Seq::empty(), None, Seq::empty())),
                (match r {
                    Ok((f, c, m)) => Ok(parts_view(f@, c, m@)),
                    Err(e) => Err(e@),
                }),
                final(self)@,
            ),
            r is Ok ==> rem(final(self)@) <= rem(old(self)@),
        decreases rem(old(self)@), 1nat,
    {
        let ghost st0 = self@;
        let mut fields: Vec<Field> = Vec::new();
        let mut constructor: Option<Function> = None;
        let mut methods: Vec<Function> = Vec::new();
        proof {
            assert(parts_view(fields@, constructor, methods@) =~= parts_view(Seq::empty(), None, Seq::empty()));
        }
        while !self.check(&Type::RBrace)
            invariant
                self.inv(),
                st0 == old(self)@,
                rem(self@) <= rem(st0),
                p_members(st0, parts_view(Seq::empty(), None, Seq::empty())) == p_members(self@, parts_view(fields@, constructor, methods@)),
            decreases rem(self@),
        {
            let ghost st = self@;
            proof {
                self.lemma_wf();
                if check(st, SpecType::Constructor) {
                    lemma_adv(st);
                }
            }
            if self.consume_simple(Type::Constructor) {
                let c = self.parse_function_after_name(String::from_str("constructor"), false)?;
                constructor = Some(c);
                let ghost st2 = self@;
                self.skip_eol();
                proof {
                    self.lemma_wf();
                    lemma_skip_eol(st2);
                    assert(parts_view(fields@, constructor, methods@) == (ObjectParts { constructor: Some(function_view(c)), ..parts_view(fields@, None, methods@) }));
                }
                continue;
            }
            let ghost fields_before = fields@;
            let ghost methods_before = methods@;
            let ghost ctor_before = constructor;
            let mutable = self.consume_simple(Type::Mut);
            let (member_name, private) = if self.consume_simple(Type::Func) {
                let private = if self.consume_simple(Type::Colon) {
                    self.consume_simple(Type::Private)
                } else {
                    false
                };
                (self.expect_identifier()?, private)
            } else {
                let private = if self.consume_simple(Type::Colon) {
                    self.consume_simple(Type::Private)
                } else {
                    false
                };
                (self.expect_identifier()?, private)
            };
            let ghost st6 = self@;
            proof {
                self.lemma_wf();
                assert(smaller(st6, st)) by {
                    let s2 = consume(st, SpecType::Mut).1;
                    let s3 = consume(s2, SpecType::Func).1;
                    let s4 = consume(s3, SpecType::Colon).1;
                    let s5 = if consume(s3, SpecType::Colon).0 { consume(s4, SpecType::Private).1 } else { s4 };
                    crate::parser_spec::lemma_consume_rem(st, SpecType::Mut);
                    crate::parser_spec::lemma_consume_rem(s2, SpecType::Func);
                    crate::parser_spec::lemma_consume_rem(s3, SpecType::Colon);
                    crate::parser_spec::lemma_consume_rem(s4, SpecType::Private);
                    lemma_adv(s5);
                }
            }
            if self.check(&Type::LParen) {
                let method = self.parse_function_after_name(member_name, private)?;
                methods.push(method);
                proof {
                    assert(methods@.map_values(|m: Function| function_view(m)) =~= methods_before.map_values(|m: Function| function_view(m)).push(function_view(method)));
                }
            } else {
                let field = Field { name: member_name, mutable, private };
                fields.push(field);
                proof {
                    assert(fields@.map_values(|f: Field| field_view(f)) =~= fields_before.map_values(|f: Field| field_view(f)).push(field_view(field)));
                }
            }
            let ghost st7 = self@;
            proof {
                self.lemma_wf();
                crate::parser_spec::lemma_consume_rem(st7, SpecType::EOL);
            }
            self.consume_eol();
            let ghost st8 = self@;
            self.skip_eol();
            proof {
                self.lemma_wf();
                lemma_skip_eol(st8);
            }
        }
        Ok((fields, constructor, methods))
    }

    #[verifier::rlimit(100)]
    pub(crate) fn parse_object(&mut self) -> (r: Result<Object, ParseError>)
        requires
            old(self).inv(),
        ensures
            final(self).inv(),
            parsed(crate::parser_spec::p_object(old(self)@), pviewed(r), final(self)@),
            r is Ok ==> smaller(final(self)@, old(self)@),
        decreases rem(old(self)@), 15nat,
    {
        let ghost st0 = self@;
        proof {
            self.lemma_wf();
            if 0 <= st0.pos < st0.tokens.len() {
                lemma_adv(st0);
            }
        }
        self.expect_simple(Type::Object)?;
        let ghost st1 = self@;
        let name = self.expect_identifier()?;
        let ghost st2 = self@;
        self.expect_simple(Type::LBrace)?;
        let ghost st3 = self@;
        self.skip_eol();
        proof {
            lemma_adv(st1);
            lemma_adv(st2);
            self.lemma_wf();
            lemma_skip_eol(st3);
            assert(parts_view(Seq::empty(), None, Seq::empty()) == (ObjectParts {
                fields: Seq::empty(),
                constructor: None,
                methods: Seq::empty(),
            })) by {
                assert(Seq::<Field>::empty().map_values(|f: Field| field_view(f)) =~= Seq::<SpecField>::empty());
                assert(Seq::<Function>::empty().map_values(|m: Function| function_view(m)) =~= Seq::<SpecFunction>::empty());
            }
        }
        let (fields, constructor, methods) = self.parse_members()?;
        let ghost st4 = self@;
        self.expect_simple(Type::RBrace)?;
        proof {
            lemma_adv(st4);
        }
        Ok(Object { name, fields, constructor, methods })
    }

    /// The items of a namespace, up to its closing brace.
    #[verifier::rlimit(60)]
    fn parse_namespace_items(&mut self) -> (r: Result<Vec<Item>, ParseError>)
        requires
            old(self).inv(),
        ensures
            final(self).inv(),
            parsed(crate::parser_spec::p_namespace_items(old(self)@, Seq::empty()), pitems(r), final(self)@),
            r is Ok ==> rem(final(self)@) <= rem(old(self)@),
        decreases rem(old(self)@), 21nat,
    {
        let ghost st0 = self@;
        let mut items: Vec<Item> = Vec::new();
        proof {
            assert(items_view(items@) =~= Seq::<SpecItem>::empty());
        }
        while !self.check(&Type::RBrace)
            invariant
                self.inv(),
                st0 == old(self)@,
                rem(self@) <= rem(st0),
                crate::parser_spec::p_namespace_items(st0, Seq::empty()) == crate::parser_spec::p_namespace_items(self@, items_view(items@)),
            decreases rem(self@),
        {
            let ghost before = items@;
            let item = self.parse_item()?;
            items.push(item);
            let ghost st1 = self@;
            self.skip_eol();
            proof {
                self.lemma_wf();
                lemma_skip_eol(st1);
                assert(items@.drop_last() =~= before);
            }
        }
        Ok(items)
    }

    #[verifier::rlimit(100)]
    pub(crate) fn parse_namespace(&mut self) -> (r: Result<Namespace, ParseError>)
        requires
            old(self).inv(),
        ensures
            final(self).inv(),
            parsed(crate::parser_spec::p_namespace(old(self)@), pviewed(r), final(self)@),
            r is Ok ==> smaller(final(self)@, old(self)@),
        decreases rem(old(self)@), 15nat,
    {
        let ghost st0 = self@;
        proof {
            self.lemma_wf();
            if 0 <= st0.pos < st0.tokens.len() {
                lemma_adv(st0);
            }
        }
        self.expect_simple(Type::Namespace)?;
        let ghost st1 = self@;
        let name = self.expect_identifier()?;
        let ghost st2 = self@;
        self.expect_simple(Type::LBrace)?;
        let ghost st3 = self@;
        self.skip_eol();
        proof {
            lemma_adv(st1);
            lemma_adv(st2);
            self.lemma_wf();
            lemma_skip_eol(st3);
        }
        let items = self.parse_namespace_items()?;
        let ghost st4 = self@;
        proof {
            self.lemma_wf();
            if 0 <= st4.pos < st4.tokens.len() {
                lemma_adv(st4);
            }
        }
        self.expect_simple(Type::RBrace)?;
        Ok(Namespace { name, items })
    }

    #[verifier::rlimit(60)]
    pub(crate) fn parse_item(&mut self) -> (r: Result<Item, ParseError>)
        requires
            old(self).inv(),
        ensures
            final(self).inv(),
            parsed(crate::parser_spec::p_item(old(self)@), pviewed(r), final(self)@),
            r is Ok ==> smaller(final(self)@, old(self)@),
        decreases rem(old(self)@), 20nat,
    {
        let ghost st0 = self@;
        proof {
            self.lemma_wf();
            if 0 <= st0.pos < st0.tokens.len() {
                lemma_adv(st0);
            }
        }
        match self.peek_type() {
            Some(Type::Get(tokens)) => {
                let tokens = duplicate_tokens(tokens);
                self.advance();
                self.insert_tokens(tokens);
                let ghost st1 = self@;
                self.skip_eol();
                proof {
                    if let SpecType::Get(inner) = st0.tokens[st0.pos].token_type {
                        lemma_splice(st0, inner);
                    }
                    lemma_skip_eol(st1);
                }
                self.parse_item()
            },
            Some(Type::Entry) => {
                self.advance();
                Ok(Item::Entry(self.parse_block()?))
            },
            Some(Type::Object) => Ok(Item::Object(self.parse_object()?)),
            Some(Type::Namespace) => Ok(Item::Namespace(self.parse_namespace()?)),
            Some(Type::Private) | Some(Type::Func) => Ok(Item::Function(self.parse_function()?)),
            _ => Ok(Item::Statement(self.parse_statement()?)),
        }
    }

    /// Items until the tokens run out, with the blank lines after each skipped.
    #[verifier::rlimit(60)]
    fn parse_items(&mut self) -> (r: Result<Vec<Item>, ParseError>)
        requires
            old(self).inv(),
        ensures
            final(self).inv(),
            pitems(r) == crate::parser_spec::p_items(old(self)@, Seq::empty()),
    {
        let ghost st0 = self@;
        let mut items: Vec<Item> = Vec::new();
        proof {
            assert(items_view(items@) =~= Seq::<SpecItem>::empty());
        }
        while !self.at_end()
            invariant
                self.inv(),
                st0 == old(self)@,
                crate::parser_spec::p_items(st0, Seq::empty()) == crate::parser_spec::p_items(self@, items_view(items@)),
            decreases rem(self@),
        {
            let ghost before = items@;
            let item = self.parse_item()?;
            items.push(item);
            let ghost st1 = self@;
            self.skip_eol();
            proof {
                self.lemma_wf();
                lemma_skip_eol(st1);
                assert(items@.drop_last() =~= before);
            }
        }
        Ok(items)
    }

    /// Parses all the tokens into a program.
    pub fn parse(self) -> (r: Result<Program, ParseError>)
        requires
            self.inv(),
        ensures
            match crate::parser_spec::p_parse(self@) {
                Ok(p) => r is Ok && r->Ok_0@ == p,
                Err(e) => r is Err && r->Err_0@ == e,
            },
    {
        let mut this = self;
        this.skip_eol();
        let items = this.parse_items()?;
        Ok(Program { items })
    }
}

} // verus!
