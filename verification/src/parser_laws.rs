//! What the parser's expressions mean: how tightly each binary operator
//! binds and which way equal ones group, and that an `if` condition and a
//! call's argument are whole expressions.
use vstd::prelude::*;
use crate::ast::{BinaryOp, SpecExpr, SpecStmt, UnaryOp};
use crate::token::SpecType;
use crate::parser_spec::{
    PState, wf, rem, smaller, peek, check, adv, consume, skip_eol, binop, p_expression, p_binary,
    p_binary_loop, p_unary, p_primary, p_postfix, p_arguments, p_if, p_block, p_statement,
    is_statement_end, lemma_adv,
};

verus! {

/// An atom of an expression: an integer or a name.
pub open spec fn atom_expr(t: SpecType) -> Option<SpecExpr> {
    match t {
        SpecType::Integer(v) => Some(SpecExpr::Integer(v)),
        SpecType::Identifier(n) => Some(SpecExpr::Name(n)),
        _ => None,
    }
}

/// The binary operator a token stands for, with how tightly it binds:
/// `||` 1, `&&` 2, `==` `!=` 3, `<` `<=` `>` `>=` 4, `+` `-` 5, `*` `/` `%` 6,
/// `^` 7.
pub open spec fn operator_level(t: SpecType) -> Option<(BinaryOp, nat)> {
    match t {
        SpecType::DoublePipe => Some((BinaryOp::Or, 1nat)),
        SpecType::DoubleAmpersand => Some((BinaryOp::And, 2nat)),
        SpecType::DoubleEquals => Some((BinaryOp::Equal, 3nat)),
        SpecType::BangEquals => Some((BinaryOp::NotEqual, 3nat)),
        SpecType::LessThan => Some((BinaryOp::Less, 4nat)),
        SpecType::LessThanOrEqual => Some((BinaryOp::LessOrEqual, 4nat)),
        SpecType::GreaterThan => Some((BinaryOp::Greater, 4nat)),
        SpecType::GreaterThanOrEqual => Some((BinaryOp::GreaterOrEqual, 4nat)),
        SpecType::Plus => Some((BinaryOp::Add, 5nat)),
        SpecType::Minus => Some((BinaryOp::Subtract, 5nat)),
        SpecType::Star => Some((BinaryOp::Multiply, 6nat)),
        SpecType::Slash => Some((BinaryOp::Divide, 6nat)),
        SpecType::Percent => Some((BinaryOp::Remainder, 6nat)),
        SpecType::Exponent => Some((BinaryOp::Exponent, 7nat)),
        _ => None,
    }
}

pub open spec fn bin(l: SpecExpr, op: BinaryOp, r: SpecExpr) -> SpecExpr {
    SpecExpr::Binary { left: Box::new(l), operator: op, right: Box::new(r) }
}

/// `a o1 b o2 c` grouped as the levels say: the tighter operator first;
/// between equal levels from the left, except `^`, which groups from the
/// right.
pub open spec fn grouped(a: SpecExpr, o1: SpecType, b: SpecExpr, o2: SpecType, c: SpecExpr) -> SpecExpr {
    let (op1, l1) = operator_level(o1)->Some_0;
    let (op2, l2) = operator_level(o2)->Some_0;
    if l2 > l1 || (op1 == BinaryOp::Exponent && op2 == BinaryOp::Exponent) {
        bin(a, op1, bin(b, op2, c))
    } else {
        bin(bin(a, op1, b), op2, c)
    }
}

/// The next token ends an expression: it is no binary operator and opens
/// no call or access (or there is none).
pub open spec fn ends_expression(st: PState) -> bool {
    &&& !(peek(st) matches Some(t) && operator_level(t) is Some)
    &&& !check(st, SpecType::LParen)
    &&& !check(st, SpecType::DoubleColon)
    &&& !check(st, SpecType::ColonArrow)
}

pub open spec fn token_at(st: PState, i: int) -> SpecType {
    st.tokens[st.pos + i].token_type
}

pub open spec fn skip(st: PState, n: int) -> PState {
    PState { tokens: st.tokens, pos: st.pos + n }
}

proof fn lemma_binop_level(st: PState)
    ensures
        binop(st) == (match peek(st) {
            Some(t) => match operator_level(t) {
                Some((op, l)) => Some((op, l as u8)),
                None => None,
            },
            None => None,
        }),
{
}

/// An atom not followed by a call or access parses as itself, and the loop
/// of binary operators takes over after it.
proof fn lemma_atom_binary(st: PState, min: u8)
    requires
        wf(st),
        st.pos < st.tokens.len(),
        atom_expr(st.tokens[st.pos].token_type) is Some,
        !check(adv(st), SpecType::LParen),
        !check(adv(st), SpecType::DoubleColon),
        !check(adv(st), SpecType::ColonArrow),
    ensures
        p_binary(st, min) == p_binary_loop(adv(st), atom_expr(st.tokens[st.pos].token_type)->Some_0, min),
        smaller(adv(st), st),
{
    lemma_adv(st);
    let a = atom_expr(st.tokens[st.pos].token_type)->Some_0;
    assert(p_postfix(adv(st), a) == Ok::<(SpecExpr, PState), crate::parser_spec::SpecParseError>((a, adv(st))));
    assert(p_primary(st) == p_postfix(adv(st), a));
    assert(p_unary(st) == p_primary(st));
}

proof fn lemma_loop_done(st: PState, left: SpecExpr, min: u8)
    requires
        ends_expression(st),
    ensures
        p_binary_loop(st, left, min) == Ok::<(SpecExpr, PState), crate::parser_spec::SpecParseError>((left, st)),
{
    lemma_binop_level(st);
}

/// Operator precedence and grouping: three atoms joined by two binary
/// operators, and nothing more to the expression, parse as the levels of
/// the operators say (`a + b / c` as `a + (b / c)`, `a / b + c` as
/// `(a / b) + c`, `a - b - c` as `(a - b) - c`, `a ^ b ^ c` as
/// `a ^ (b ^ c)`), and the parser stands right after the third atom.
#[verifier::rlimit(80)]
pub proof fn lemma_precedence(st: PState)
    requires
        wf(st),
        st.pos + 5 <= st.tokens.len(),
        atom_expr(token_at(st, 0)) is Some,
        operator_level(token_at(st, 1)) is Some,
        atom_expr(token_at(st, 2)) is Some,
        operator_level(token_at(st, 3)) is Some,
        atom_expr(token_at(st, 4)) is Some,
        ends_expression(skip(st, 5)),
    ensures
        p_expression(st) == Ok::<(SpecExpr, PState), crate::parser_spec::SpecParseError>(
            (
                grouped(
                    atom_expr(token_at(st, 0))->Some_0,
                    token_at(st, 1),
                    atom_expr(token_at(st, 2))->Some_0,
                    token_at(st, 3),
                    atom_expr(token_at(st, 4))->Some_0,
                ),
                skip(st, 5),
            ),
        ),
{
    let s1 = skip(st, 1);
    let s2 = skip(st, 2);
    let s3 = skip(st, 3);
    let s4 = skip(st, 4);
    let s5 = skip(st, 5);
    let a = atom_expr(token_at(st, 0))->Some_0;
    let b = atom_expr(token_at(st, 2))->Some_0;
    let c = atom_expr(token_at(st, 4))->Some_0;
    let (op1, l1) = operator_level(token_at(st, 1))->Some_0;
    let (op2, l2) = operator_level(token_at(st, 3))->Some_0;
    assert(adv(st) == s1 && adv(s1) == s2 && adv(s2) == s3 && adv(s3) == s4 && adv(s4) == s5);
    lemma_binop_level(s1);
    lemma_binop_level(s3);
    assert(binop(s1) == Some((op1, l1 as u8)));
    assert(binop(s3) == Some((op2, l2 as u8)));
    lemma_adv(s1);
    lemma_adv(s3);
    lemma_atom_binary(st, 0);
    let next1: u8 = if op1 == BinaryOp::Exponent { l1 as u8 } else { (l1 + 1) as u8 };
    let next2: u8 = if op2 == BinaryOp::Exponent { l2 as u8 } else { (l2 + 1) as u8 };
    lemma_atom_binary(s2, next1);
    lemma_atom_binary(s4, next2);
    lemma_atom_binary(s4, next1);
    lemma_loop_done(s5, c, next2);
    assert(p_binary(s4, next2) == Ok::<(SpecExpr, PState), crate::parser_spec::SpecParseError>((c, s5)));
    if l2 >= next1 {
        lemma_loop_done(s5, bin(b, op2, c), next1);
        assert(p_binary_loop(s3, b, next1) == Ok::<(SpecExpr, PState), crate::parser_spec::SpecParseError>((bin(b, op2, c), s5)));
        assert(p_binary(s2, next1) == Ok::<(SpecExpr, PState), crate::parser_spec::SpecParseError>((bin(b, op2, c), s5)));
        lemma_loop_done(s5, bin(a, op1, bin(b, op2, c)), 0);
        assert(p_binary_loop(s1, a, 0) == Ok::<(SpecExpr, PState), crate::parser_spec::SpecParseError>((bin(a, op1, bin(b, op2, c)), s5)));
    } else {
        assert(p_binary_loop(s3, b, next1) == Ok::<(SpecExpr, PState), crate::parser_spec::SpecParseError>((b, s3)));
        assert(p_binary(s2, next1) == Ok::<(SpecExpr, PState), crate::parser_spec::SpecParseError>((b, s3)));
        lemma_loop_done(s5, bin(bin(a, op1, b), op2, c), 0);
        assert(p_binary_loop(s3, bin(a, op1, b), 0) == Ok::<(SpecExpr, PState), crate::parser_spec::SpecParseError>((bin(bin(a, op1, b), op2, c), s5)));
        assert(p_binary_loop(s1, a, 0) == Ok::<(SpecExpr, PState), crate::parser_spec::SpecParseError>((bin(bin(a, op1, b), op2, c), s5)));
    }
}

proof fn lemma_loop_moves(st: PState, left: SpecExpr, min: u8)
    requires
        p_binary_loop(st, left, min) is Ok,
    ensures
        rem(p_binary_loop(st, left, min)->Ok_0.1) <= rem(st),
    decreases rem(st),
{
    if let Some((op, prec)) = binop(st) {
        if prec >= min {
            let st1 = adv(st);
            let next: u8 = if op == BinaryOp::Exponent { prec } else { (prec + 1) as u8 };
            if let Ok((right, st2)) = p_binary(st1, next) {
                if smaller(st2, st) {
                    lemma_loop_moves(
                        st2,
                        SpecExpr::Binary { left: Box::new(left), operator: op, right: Box::new(right) },
                        min,
                    );
                }
            }
        }
    }
}

/// A parsed expression takes at least one token.
pub proof fn lemma_expression_moves(st: PState)
    requires
        p_expression(st) is Ok,
    ensures
        smaller(p_expression(st)->Ok_0.1, st),
{
    let (left, st1) = p_unary(st)->Ok_0;
    lemma_loop_moves(st1, left, 0);
}

/// The condition of an `if` is a whole expression: where the tokens after
/// `if` parse as an expression `e` and a block follows it, the statement's
/// condition is `e` and its body that block; without an `else` after it, the
/// statement is just that.
pub proof fn lemma_if_condition(st: PState)
    requires
        wf(st),
        peek(st) == Some(SpecType::If),
        p_expression(adv(st)) is Ok,
        p_block(p_expression(adv(st))->Ok_0.1) is Ok,
    ensures
        ({
            let (e, s2) = p_expression(adv(st))->Ok_0;
            let (body, s3) = p_block(s2)->Ok_0;
            &&& p_if(st) matches Ok((SpecStmt::If { condition, body: b, .. }, _)) ==> condition == e && b == body
            &&& !check(skip_eol(s3), SpecType::Else) ==> p_if(st) == Ok::<(SpecStmt, PState), crate::parser_spec::SpecParseError>(
                (SpecStmt::If { condition: e, body, else_body: None }, skip_eol(s3)),
            )
        }),
{
    lemma_adv(st);
    lemma_expression_moves(adv(st));
}

/// Nothing after a call's closing parenthesis continues the expression.
pub open spec fn ends_postfix(st: PState) -> bool {
    &&& !check(st, SpecType::LParen)
    &&& !check(st, SpecType::DoubleColon)
    &&& !check(st, SpecType::ColonArrow)
}

/// A call's argument is a whole expression: where the tokens after `(`
/// parse as an expression `e` followed by `)`, the call is `f(e)`, and the
/// parser stands after the `)`.
pub proof fn lemma_call_argument(st: PState, f: SpecExpr)
    requires
        wf(st),
        check(st, SpecType::LParen),
        p_expression(adv(st)) is Ok,
        check(p_expression(adv(st))->Ok_0.1, SpecType::RParen),
        ends_postfix(adv(p_expression(adv(st))->Ok_0.1)),
    ensures
        ({
            let (e, s2) = p_expression(adv(st))->Ok_0;
            p_postfix(st, f) == Ok::<(SpecExpr, PState), crate::parser_spec::SpecParseError>(
                (SpecExpr::Call { callee: Box::new(f), arguments: seq![e] }, adv(s2)),
            )
        }),
{
    let s1 = adv(st);
    let (e, s2) = p_expression(s1)->Ok_0;
    lemma_adv(st);
    lemma_expression_moves(s1);
    lemma_adv(s2);
    assert(!check(s1, SpecType::RParen)) by {
        if check(s1, SpecType::RParen) {
            assert(p_unary(s1) == p_primary(s1));
            assert(p_primary(s1) is Err);
        }
    }
    assert(!consume(s2, SpecType::Comma).0);
    assert(Seq::<SpecExpr>::empty().push(e) =~= seq![e]);
    assert(p_arguments(s1, Seq::empty()) == Ok::<(Seq<SpecExpr>, PState), crate::parser_spec::SpecParseError>((seq![e], s2)));
    let call = SpecExpr::Call { callee: Box::new(f), arguments: seq![e] };
    assert(p_postfix(adv(s2), call) == Ok::<(SpecExpr, PState), crate::parser_spec::SpecParseError>((call, adv(s2))));
    assert(smaller(adv(s2), st));
    assert(smaller(s1, st));
}

/// Arguments are whole expressions separated by commas: after an argument
/// `e` and a comma, the rest are read the same way with `e` before them.
pub proof fn lemma_argument_comma(st: PState, acc: Seq<SpecExpr>)
    requires
        wf(st),
        p_expression(st) is Ok,
        check(p_expression(st)->Ok_0.1, SpecType::Comma),
    ensures
        ({
            let (e, s2) = p_expression(st)->Ok_0;
            p_arguments(st, acc) == p_arguments(adv(s2), acc.push(e))
        }),
{
    let (e, s2) = p_expression(st)->Ok_0;
    lemma_expression_moves(st);
    lemma_adv(s2);
    assert(!check(st, SpecType::RParen)) by {
        if check(st, SpecType::RParen) {
            assert(p_unary(st) == p_primary(st));
            assert(p_primary(st) is Err);
        }
    }
}

/// A `!` or `-` before an atom applies to that atom alone, before any binary
/// operator after it: `-a` is `Negate(a)`, `!a` is `Not(a)`, and `-a o b`
/// is `(-a) o b`.
pub proof fn lemma_unary_prefix(st: PState)
    requires
        wf(st),
        st.pos + 2 <= st.tokens.len(),
        token_at(st, 0) == SpecType::Bang || token_at(st, 0) == SpecType::Minus,
        atom_expr(token_at(st, 1)) is Some,
        ends_expression(skip(st, 2)) || (st.pos + 4 <= st.tokens.len() && operator_level(token_at(st, 2)) is Some
            && atom_expr(token_at(st, 3)) is Some && ends_expression(skip(st, 4))),
    ensures
        ({
            let u = SpecExpr::Unary {
                operator: if token_at(st, 0) == SpecType::Bang { UnaryOp::Not } else { UnaryOp::Negate },
                value: Box::new(atom_expr(token_at(st, 1))->Some_0),
            };
            &&& ends_expression(skip(st, 2)) ==> p_expression(st) == Ok::<(SpecExpr, PState), crate::parser_spec::SpecParseError>((u, skip(st, 2)))
            &&& !ends_expression(skip(st, 2)) ==> p_expression(st) == Ok::<(SpecExpr, PState), crate::parser_spec::SpecParseError>(
                (bin(u, operator_level(token_at(st, 2))->Some_0.0, atom_expr(token_at(st, 3))->Some_0), skip(st, 4)),
            )
        }),
{
    let s1 = skip(st, 1);
    let s2 = skip(st, 2);
    let a = atom_expr(token_at(st, 1))->Some_0;
    let u = SpecExpr::Unary {
        operator: if token_at(st, 0) == SpecType::Bang { UnaryOp::Not } else { UnaryOp::Negate },
        value: Box::new(a),
    };
    assert(adv(st) == s1 && adv(s1) == s2);
    lemma_adv(st);
    lemma_adv(s1);
    if ends_expression(s2) {
        assert(p_postfix(s2, a) == Ok::<(SpecExpr, PState), crate::parser_spec::SpecParseError>((a, s2)));
        assert(p_primary(s1) == p_postfix(s2, a));
        assert(p_unary(s1) == p_primary(s1));
        assert(p_unary(s1) == Ok::<(SpecExpr, PState), crate::parser_spec::SpecParseError>((a, s2)));
        assert(p_unary(st) == Ok::<(SpecExpr, PState), crate::parser_spec::SpecParseError>((u, s2)));
        lemma_loop_done(s2, u, 0);
    } else {
        let s3 = skip(st, 3);
        let s4 = skip(st, 4);
        assert(adv(s2) == s3 && adv(s3) == s4);
        lemma_adv(s2);
        let b = atom_expr(token_at(st, 3))->Some_0;
        let (op, l) = operator_level(token_at(st, 2))->Some_0;
        assert(p_postfix(s2, a) == Ok::<(SpecExpr, PState), crate::parser_spec::SpecParseError>((a, s2)));
        assert(p_primary(s1) == p_postfix(s2, a));
        assert(p_unary(s1) == p_primary(s1));
        assert(p_unary(s1) == Ok::<(SpecExpr, PState), crate::parser_spec::SpecParseError>((a, s2)));
        assert(p_unary(st) == Ok::<(SpecExpr, PState), crate::parser_spec::SpecParseError>((u, s2)));
        lemma_binop_level(s2);
        let next: u8 = if op == BinaryOp::Exponent { l as u8 } else { (l + 1) as u8 };
        lemma_atom_binary(s3, next);
        lemma_loop_done(s4, b, next);
        lemma_loop_done(s4, bin(u, op, b), 0);
    }
}

/// The value of a declaration is a whole expression: `mut name = t` (or
/// `immut name = t`), where `t` parses as an expression `e`, declares `name`
/// with value `e`, mutable exactly when it opens with `mut`.
pub proof fn lemma_let_value(st: PState)
    requires
        wf(st),
        st.pos + 3 <= st.tokens.len(),
        token_at(st, 0) == SpecType::Mut || token_at(st, 0) == SpecType::Immut,
        token_at(st, 1) is Identifier,
        token_at(st, 2) == SpecType::Equals,
        p_expression(skip(st, 3)) is Ok,
    ensures
        ({
            let (e, s) = p_expression(skip(st, 3))->Ok_0;
            p_statement(st) == Ok::<(SpecStmt, PState), crate::parser_spec::SpecParseError>(
                (SpecStmt::Let { mutable: token_at(st, 0) == SpecType::Mut, name: token_at(st, 1)->Identifier_0, value: e }, s),
            )
        }),
{
    let s1 = skip(st, 1);
    let s2 = skip(st, 2);
    assert(adv(st) == s1 && adv(s1) == s2 && adv(s2) == skip(st, 3));
    lemma_adv(st);
    lemma_adv(s1);
    lemma_adv(s2);
}

/// The condition of a `while` is a whole expression: where the tokens after
/// `while` parse as an expression `e` and a block follows, the statement is a
/// loop on `e` with that block as its body.
pub proof fn lemma_while_condition(st: PState)
    requires
        wf(st),
        peek(st) == Some(SpecType::While),
        p_expression(adv(st)) is Ok,
        p_block(p_expression(adv(st))->Ok_0.1) is Ok,
    ensures
        ({
            let (e, s2) = p_expression(adv(st))->Ok_0;
            let (body, s3) = p_block(s2)->Ok_0;
            p_statement(st) == Ok::<(SpecStmt, PState), crate::parser_spec::SpecParseError>(
                (SpecStmt::While { condition: e, body }, s3),
            )
        }),
{
    lemma_adv(st);
    lemma_expression_moves(adv(st));
}

/// `ret` returns a whole expression, where one follows on the line.
pub proof fn lemma_return_value(st: PState)
    requires
        wf(st),
        peek(st) == Some(SpecType::Ret),
        !is_statement_end(adv(st)),
        p_expression(adv(st)) is Ok,
    ensures
        ({
            let (e, s2) = p_expression(adv(st))->Ok_0;
            p_statement(st) == Ok::<(SpecStmt, PState), crate::parser_spec::SpecParseError>(
                (SpecStmt::Return(Some(e)), s2),
            )
        }),
{
    lemma_adv(st);
}

/// An assignment takes whole expressions on both sides of `=`.
pub proof fn lemma_assignment(st: PState)
    requires
        wf(st),
        !(peek(st) matches Some(t) && (t == SpecType::Mut || t == SpecType::Immut || t == SpecType::If
            || t == SpecType::While || t == SpecType::Break || t == SpecType::Continue || t == SpecType::Ret
            || t == SpecType::LBrace)),
        p_expression(st) is Ok,
        check(p_expression(st)->Ok_0.1, SpecType::Equals),
        p_expression(adv(p_expression(st)->Ok_0.1)) is Ok,
    ensures
        ({
            let (t, s1) = p_expression(st)->Ok_0;
            let (v, s3) = p_expression(adv(s1))->Ok_0;
            p_statement(st) == Ok::<(SpecStmt, PState), crate::parser_spec::SpecParseError>(
                (SpecStmt::Assign { target: t, value: v }, s3),
            )
        }),
{
    let (t, s1) = p_expression(st)->Ok_0;
    lemma_expression_moves(st);
    lemma_adv(s1);
}

} // verus!
