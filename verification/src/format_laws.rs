//! Reading back what was written: the CRST reader gives back every value that
//! the writer wrote, as long as every count and string length fits in 32 bits.
use vstd::prelude::*;
use vstd::bytes::{
    spec_u32_to_le_bytes, spec_u64_to_le_bytes, lemma_auto_spec_u32_to_from_le_bytes,
    lemma_auto_spec_u64_to_from_le_bytes,
};
use vstd::utf8::{encode_utf8};
use crate::ast::{
    AccessOp, BinaryOp, UnaryOp,
    SpecExpr, SpecField, SpecFunction, SpecItem, SpecObject, SpecParameter, SpecProgram, SpecStmt,
};
use crate::token::{SpecToken, SpecType};
use crate::format_spec::{
    FormatError, le32, le64, ser_flag, ser_string, rd_u8, rd_u32, rd_u64, rd_flag, rd_string,
    rd_char, ser_expr, ser_expr_list, rd_expr, rd_expr_list, unary_tag, binary_tag, access_tag,
    binary_of_tag, ser_stmt, ser_stmt_list, ser_stmts, rd_stmt, rd_stmts, rd_stmt_list,
    ser_parameter, ser_parameter_list, rd_parameter_list, ser_field, ser_field_list, rd_field_list,
    ser_function, ser_function_list, rd_function, rd_function_list, ser_object, rd_object,
    ser_item, ser_item_list, ser_items, rd_item, rd_items, rd_item_list, ser_program, rd_program,
    crst_magic, rd_type, rd_token, rd_token_list, ser_type, ser_token, ser_token_list, type_tag,
    simple_type_of_tag,
};

verus! {

broadcast use vstd::utf8::encode_utf8_valid_utf8, vstd::utf8::encode_utf8_decode_utf8,
    vstd::utf8::char_is_scalar;

/// The bytes `s` stand in `b` from position `p` on.
pub open spec fn holds_at(b: Seq<u8>, p: int, s: Seq<u8>) -> bool {
    &&& 0 <= p
    &&& p + s.len() <= b.len()
    &&& b.subrange(p, p + s.len()) == s
}

/// A string whose UTF-8 length fits in a 32-bit count.
pub open spec fn string_fits(s: Seq<char>) -> bool {
    encode_utf8(s).len() <= u32::MAX
}

pub open spec fn expr_fits(e: SpecExpr) -> bool
    decreases e,
{
    match e {
        SpecExpr::String(v) => string_fits(v),
        SpecExpr::Name(v) => string_fits(v),
        SpecExpr::Unary { value, .. } => expr_fits(*value),
        SpecExpr::Binary { left, right, .. } => expr_fits(*left) && expr_fits(*right),
        SpecExpr::Call { callee, arguments } => expr_fits(*callee) && arguments.len() <= u32::MAX
            && expr_list_fits(arguments),
        SpecExpr::Access { value, member, .. } => expr_fits(*value) && string_fits(member),
        SpecExpr::Group(value) => expr_fits(*value),
        _ => true,
    }
}

pub open spec fn expr_list_fits(s: Seq<SpecExpr>) -> bool
    decreases s,
{
    s.len() > 0 ==> expr_fits(s[0]) && expr_list_fits(s.drop_first())
}

proof fn lemma_split(b: Seq<u8>, p: int, x: Seq<u8>, y: Seq<u8>)
    requires
        holds_at(b, p, x + y),
    ensures
        holds_at(b, p, x),
        holds_at(b, p + x.len(), y),
{
    assert(b.subrange(p, p + x.len()) =~= x) by {
        assert forall|i: int| 0 <= i < x.len() implies b.subrange(p, p + x.len())[i] == x[i] by {
            assert(b.subrange(p, p + (x + y).len())[i] == (x + y)[i]);
        }
    }
    assert(b.subrange(p + x.len(), p + x.len() + y.len()) =~= y) by {
        assert forall|i: int| 0 <= i < y.len() implies b.subrange(
            p + x.len(),
            p + x.len() + y.len(),
        )[i] == y[i] by {
            assert(b.subrange(p, p + (x + y).len())[x.len() + i] == (x + y)[x.len() + i]);
        }
    }
}

proof fn lemma_rd_u8(b: Seq<u8>, p: int, v: u8)
    requires
        b.len() <= usize::MAX,
        holds_at(b, p, seq![v]),
    ensures
        rd_u8(b, p) == Ok::<(u8, int), FormatError>((v, p + 1)),
{
    assert(b.subrange(p, p + 1)[0] == seq![v][0]);
}

proof fn lemma_rd_le32(b: Seq<u8>, p: int, n: int)
    requires
        b.len() <= usize::MAX,
        0 <= n <= u32::MAX,
        holds_at(b, p, le32(n)),
    ensures
        le32(n).len() == 4,
        rd_u32(b, p) == Ok::<(u32, int), FormatError>((n as u32, p + 4)),
{
    lemma_auto_spec_u32_to_from_le_bytes();
    assert(spec_u32_to_le_bytes(n as u32).len() == 4);
}

proof fn lemma_rd_le64(b: Seq<u8>, p: int, n: u64)
    requires
        b.len() <= usize::MAX,
        holds_at(b, p, le64(n)),
    ensures
        le64(n).len() == 8,
        rd_u64(b, p) == Ok::<(u64, int), FormatError>((n, p + 8)),
{
    lemma_auto_spec_u64_to_from_le_bytes();
    assert(spec_u64_to_le_bytes(n).len() == 8);
}

proof fn lemma_rd_flag(b: Seq<u8>, p: int, v: bool)
    requires
        b.len() <= usize::MAX,
        holds_at(b, p, ser_flag(v)),
    ensures
        rd_flag(b, p) == Ok::<(bool, int), FormatError>((v, p + 1)),
{
    lemma_rd_u8(b, p, if v { 1u8 } else { 0u8 });
}

proof fn lemma_rd_string(b: Seq<u8>, p: int, s: Seq<char>)
    requires
        b.len() <= usize::MAX,
        string_fits(s),
        holds_at(b, p, ser_string(s)),
    ensures
        ser_string(s).len() == 4 + encode_utf8(s).len(),
        rd_string(b, p) == Ok::<(Seq<char>, int), FormatError>((s, p + ser_string(s).len())),
{
    let enc = encode_utf8(s);
    lemma_split(b, p, le32(enc.len() as int), enc);
    lemma_rd_le32(b, p, enc.len() as int);
}

proof fn lemma_rd_char(b: Seq<u8>, p: int, c: char)
    requires
        b.len() <= usize::MAX,
        holds_at(b, p, le32(c as int)),
    ensures
        rd_char(b, p) == Ok::<(char, int), FormatError>((c, p + 4)),
{
    lemma_rd_le32(b, p, c as int);
    vstd::utf8::char_u32_cast(c, c as u32);
}

proof fn lemma_pair(x: u8, y: u8)
    ensures
        seq![x, y] == seq![x] + seq![y],
{
    assert(seq![x, y] =~= seq![x] + seq![y]);
}

/// Reading an expression where one was written gives it back, and moves past
/// exactly its bytes.
#[verifier::rlimit(40)]
pub proof fn lemma_rd_expr(b: Seq<u8>, p: int, e: SpecExpr)
    requires
        b.len() <= usize::MAX,
        expr_fits(e),
        holds_at(b, p, ser_expr(e)),
    ensures
        ser_expr(e).len() >= 1,
        rd_expr(b, p) == Ok::<(SpecExpr, int), FormatError>((e, p + ser_expr(e).len())),
    decreases e, 1nat,
{
    match e {
        SpecExpr::Integer(v) => {
            lemma_split(b, p, seq![0u8], le64(v as u64));
            lemma_rd_u8(b, p, 0u8);
            lemma_rd_le64(b, p + 1, v as u64);
            assert((v as u64) as i64 == v) by (bit_vector);
        },
        SpecExpr::Float(v) => {
            lemma_split(b, p, seq![1u8], le64(v));
            lemma_rd_u8(b, p, 1u8);
            lemma_rd_le64(b, p + 1, v);
        },
        SpecExpr::String(v) => {
            lemma_split(b, p, seq![2u8], ser_string(v));
            lemma_rd_u8(b, p, 2u8);
            lemma_rd_string(b, p + 1, v);
        },
        SpecExpr::Char(c) => {
            lemma_split(b, p, seq![3u8], le32(c as int));
            lemma_rd_u8(b, p, 3u8);
            lemma_rd_char(b, p + 1, c);
            lemma_rd_le32(b, p + 1, c as int);
        },
        SpecExpr::Boolean(v) => {
            lemma_split(b, p, seq![4u8], ser_flag(v));
            lemma_rd_u8(b, p, 4u8);
            lemma_rd_flag(b, p + 1, v);
        },
        SpecExpr::Name(v) => {
            lemma_split(b, p, seq![5u8], ser_string(v));
            lemma_rd_u8(b, p, 5u8);
            lemma_rd_string(b, p + 1, v);
        },
        SpecExpr::Unary { .. } => lemma_rd_unary(b, p, e),
        SpecExpr::Binary { .. } => lemma_rd_binary(b, p, e),
        SpecExpr::Call { .. } => lemma_rd_call(b, p, e),
        SpecExpr::Access { .. } => lemma_rd_access(b, p, e),
        SpecExpr::Group(value) => {
            lemma_split(b, p, seq![10u8], ser_expr(*value));
            lemma_rd_u8(b, p, 10u8);
            lemma_rd_expr(b, p + 1, *value);
        },
    }
}

proof fn lemma_rd_unary(b: Seq<u8>, p: int, e: SpecExpr)
    requires
        b.len() <= usize::MAX,
        e is Unary,
        expr_fits(e),
        holds_at(b, p, ser_expr(e)),
    ensures
        ser_expr(e).len() >= 1,
        rd_expr(b, p) == Ok::<(SpecExpr, int), FormatError>((e, p + ser_expr(e).len())),
    decreases e, 0nat,
{
    if let SpecExpr::Unary { operator, value } = e {
        let t = unary_tag(operator);
        lemma_pair(6u8, t);
        lemma_split(b, p, seq![6u8, t], ser_expr(*value));
        lemma_split(b, p, seq![6u8], seq![t]);
        lemma_rd_u8(b, p, 6u8);
        lemma_rd_u8(b, p + 1, t);
        lemma_rd_expr(b, p + 2, *value);
    }
}

proof fn lemma_rd_binary(b: Seq<u8>, p: int, e: SpecExpr)
    requires
        b.len() <= usize::MAX,
        e is Binary,
        expr_fits(e),
        holds_at(b, p, ser_expr(e)),
    ensures
        ser_expr(e).len() >= 1,
        rd_expr(b, p) == Ok::<(SpecExpr, int), FormatError>((e, p + ser_expr(e).len())),
    decreases e, 0nat,
{
    if let SpecExpr::Binary { left, operator, right } = e {
        let t = binary_tag(operator);
        lemma_pair(7u8, t);
        lemma_split(b, p, seq![7u8, t] + ser_expr(*left), ser_expr(*right));
        lemma_split(b, p, seq![7u8, t], ser_expr(*left));
        lemma_split(b, p, seq![7u8], seq![t]);
        lemma_rd_u8(b, p, 7u8);
        lemma_rd_u8(b, p + 1, t);
        assert(binary_of_tag(t) == Some(operator));
        lemma_rd_expr(b, p + 2, *left);
        lemma_rd_expr(b, p + 2 + ser_expr(*left).len(), *right);
    }
}

proof fn lemma_rd_call(b: Seq<u8>, p: int, e: SpecExpr)
    requires
        b.len() <= usize::MAX,
        e is Call,
        expr_fits(e),
        holds_at(b, p, ser_expr(e)),
    ensures
        ser_expr(e).len() >= 1,
        rd_expr(b, p) == Ok::<(SpecExpr, int), FormatError>((e, p + ser_expr(e).len())),
    decreases e, 0nat,
{
    if let SpecExpr::Call { callee, arguments } = e {
        let n = arguments.len() as int;
        lemma_split(b, p, seq![8u8] + ser_expr(*callee) + le32(n), ser_expr_list(arguments));
        lemma_split(b, p, seq![8u8] + ser_expr(*callee), le32(n));
        lemma_split(b, p, seq![8u8], ser_expr(*callee));
        lemma_rd_u8(b, p, 8u8);
        lemma_rd_expr(b, p + 1, *callee);
        let q = p + 1 + ser_expr(*callee).len();
        lemma_rd_le32(b, q, n);
        lemma_rd_expr_list(b, q + 4, arguments);
    }
}

proof fn lemma_rd_access(b: Seq<u8>, p: int, e: SpecExpr)
    requires
        b.len() <= usize::MAX,
        e is Access,
        expr_fits(e),
        holds_at(b, p, ser_expr(e)),
    ensures
        ser_expr(e).len() >= 1,
        rd_expr(b, p) == Ok::<(SpecExpr, int), FormatError>((e, p + ser_expr(e).len())),
    decreases e, 0nat,
{
    if let SpecExpr::Access { value, operator, member } = e {
        let t = access_tag(operator);
        lemma_pair(9u8, t);
        lemma_split(b, p, seq![9u8, t] + ser_expr(*value), ser_string(member));
        lemma_split(b, p, seq![9u8, t], ser_expr(*value));
        lemma_split(b, p, seq![9u8], seq![t]);
        lemma_rd_u8(b, p, 9u8);
        lemma_rd_u8(b, p + 1, t);
        lemma_rd_expr(b, p + 2, *value);
        lemma_rd_string(b, p + 2 + ser_expr(*value).len(), member);
    }
}

/// Reading `s.len()` expressions where the list `s` was written gives it back.
pub proof fn lemma_rd_expr_list(b: Seq<u8>, p: int, s: Seq<SpecExpr>)
    requires
        b.len() <= usize::MAX,
        expr_list_fits(s),
        holds_at(b, p, ser_expr_list(s)),
    ensures
        rd_expr_list(b, p, s.len()) == Ok::<(Seq<SpecExpr>, int), FormatError>(
            (s, p + ser_expr_list(s).len()),
        ),
    decreases s, 2nat,
{
    if s.len() > 0 {
        lemma_split(b, p, ser_expr(s[0]), ser_expr_list(s.drop_first()));
        lemma_rd_expr(b, p, s[0]);
        lemma_rd_expr_list(b, p + ser_expr(s[0]).len(), s.drop_first());
        assert(seq![s[0]] + s.drop_first() =~= s);
    } else {
        assert(s =~= Seq::<SpecExpr>::empty());
    }
}

pub open spec fn stmt_fits(s: SpecStmt) -> bool
    decreases s, 0nat,
{
    match s {
        SpecStmt::Let { name, value, .. } => string_fits(name) && expr_fits(value),
        SpecStmt::Assign { target, value } => expr_fits(target) && expr_fits(value),
        SpecStmt::Expr(e) => expr_fits(e),
        SpecStmt::If { condition, body, else_body } => expr_fits(condition) && stmts_fit(body)
            && match else_body {
            Some(b) => stmts_fit(b),
            None => true,
        },
        SpecStmt::While { condition, body } => expr_fits(condition) && stmts_fit(body),
        SpecStmt::Return(Some(e)) => expr_fits(e),
        SpecStmt::Block(b) => stmts_fit(b),
        _ => true,
    }
}

pub open spec fn stmt_list_fits(s: Seq<SpecStmt>) -> bool
    decreases s, 0nat,
{
    s.len() > 0 ==> stmt_fits(s[0]) && stmt_list_fits(s.drop_first())
}

pub open spec fn stmts_fit(s: Seq<SpecStmt>) -> bool
    decreases s, 1nat,
{
    s.len() <= u32::MAX && stmt_list_fits(s)
}

pub open spec fn parameter_fits(p: SpecParameter) -> bool {
    string_fits(p.name)
}

pub open spec fn field_fits(f: SpecField) -> bool {
    string_fits(f.name)
}

pub open spec fn function_fits(f: SpecFunction) -> bool {
    &&& string_fits(f.name)
    &&& f.parameters.len() <= u32::MAX
    &&& forall|i: int| 0 <= i < f.parameters.len() ==> parameter_fits(#[trigger] f.parameters[i])
    &&& stmts_fit(f.body)
}

pub open spec fn object_fits(o: SpecObject) -> bool {
    &&& string_fits(o.name)
    &&& o.fields.len() <= u32::MAX
    &&& forall|i: int| 0 <= i < o.fields.len() ==> field_fits(#[trigger] o.fields[i])
    &&& match o.constructor {
        Some(c) => function_fits(c),
        None => true,
    }
    &&& o.methods.len() <= u32::MAX
    &&& forall|i: int| 0 <= i < o.methods.len() ==> function_fits(#[trigger] o.methods[i])
}

pub open spec fn item_fits(i: SpecItem) -> bool
    decreases i, 0nat,
{
    match i {
        SpecItem::Statement(s) => stmt_fits(s),
        SpecItem::Function(f) => function_fits(f),
        SpecItem::Object(o) => object_fits(o),
        SpecItem::Namespace(n) => string_fits(n.name) && items_fit(n.items),
        SpecItem::Entry(b) => stmts_fit(b),
    }
}

pub open spec fn item_list_fits(s: Seq<SpecItem>) -> bool
    decreases s, 0nat,
{
    s.len() > 0 ==> item_fits(s[0]) && item_list_fits(s.drop_first())
}

pub open spec fn items_fit(s: Seq<SpecItem>) -> bool
    decreases s, 1nat,
{
    s.len() <= u32::MAX && item_list_fits(s)
}

/// A program whose every count, string length and nested list fits in the
/// 32-bit counts of the format.
pub open spec fn program_fits(p: SpecProgram) -> bool {
    items_fit(p.items)
}

proof fn lemma_rd_stmt(b: Seq<u8>, p: int, s: SpecStmt)
    requires
        b.len() <= usize::MAX,
        stmt_fits(s),
        holds_at(b, p, ser_stmt(s)),
    ensures
        ser_stmt(s).len() >= 1,
        rd_stmt(b, p) == Ok::<(SpecStmt, int), FormatError>((s, p + ser_stmt(s).len())),
    decreases s, 1nat,
{
    match s {
        SpecStmt::Let { .. } => lemma_rd_let(b, p, s),
        SpecStmt::Assign { .. } => lemma_rd_assign(b, p, s),
        SpecStmt::Expr(e) => lemma_rd_expr_stmt(b, p, s),
        SpecStmt::If { .. } => lemma_rd_if(b, p, s),
        SpecStmt::While { .. } => lemma_rd_while(b, p, s),
        SpecStmt::Break => lemma_rd_jump(b, p, s),
        SpecStmt::Continue => lemma_rd_jump(b, p, s),
        SpecStmt::Return(_) => lemma_rd_return(b, p, s),
        SpecStmt::Block(_) => lemma_rd_block(b, p, s),
    }
}

proof fn lemma_rd_let(b: Seq<u8>, p: int, s: SpecStmt)
    requires
        b.len() <= usize::MAX,
        s is Let,
        stmt_fits(s),
        holds_at(b, p, ser_stmt(s)),
    ensures
        ser_stmt(s).len() >= 1,
        rd_stmt(b, p) == Ok::<(SpecStmt, int), FormatError>((s, p + ser_stmt(s).len())),
    decreases s, 0nat,
{
    if let SpecStmt::Let { mutable, name, value } = s {
        lemma_split(b, p, seq![0u8] + ser_flag(mutable) + ser_string(name), ser_expr(value));
        lemma_split(b, p, seq![0u8] + ser_flag(mutable), ser_string(name));
        lemma_split(b, p, seq![0u8], ser_flag(mutable));
        lemma_rd_u8(b, p, 0u8);
        lemma_rd_flag(b, p + 1, mutable);
        lemma_rd_string(b, p + 2, name);
        lemma_rd_expr(b, p + 2 + ser_string(name).len(), value);
    }
}

proof fn lemma_rd_assign(b: Seq<u8>, p: int, s: SpecStmt)
    requires
        b.len() <= usize::MAX,
        s is Assign,
        stmt_fits(s),
        holds_at(b, p, ser_stmt(s)),
    ensures
        ser_stmt(s).len() >= 1,
        rd_stmt(b, p) == Ok::<(SpecStmt, int), FormatError>((s, p + ser_stmt(s).len())),
    decreases s, 0nat,
{
    if let SpecStmt::Assign { target, value } = s {
        lemma_split(b, p, seq![1u8] + ser_expr(target), ser_expr(value));
        lemma_split(b, p, seq![1u8], ser_expr(target));
        lemma_rd_u8(b, p, 1u8);
        lemma_rd_expr(b, p + 1, target);
        lemma_rd_expr(b, p + 1 + ser_expr(target).len(), value);
    }
}

proof fn lemma_rd_expr_stmt(b: Seq<u8>, p: int, s: SpecStmt)
    requires
        b.len() <= usize::MAX,
        s is Expr,
        stmt_fits(s),
        holds_at(b, p, ser_stmt(s)),
    ensures
        ser_stmt(s).len() >= 1,
        rd_stmt(b, p) == Ok::<(SpecStmt, int), FormatError>((s, p + ser_stmt(s).len())),
    decreases s, 0nat,
{
    if let SpecStmt::Expr(e) = s {
        lemma_split(b, p, seq![2u8], ser_expr(e));
        lemma_rd_u8(b, p, 2u8);
        lemma_rd_expr(b, p + 1, e);
    }
}

proof fn lemma_rd_while(b: Seq<u8>, p: int, s: SpecStmt)
    requires
        b.len() <= usize::MAX,
        s is While,
        stmt_fits(s),
        holds_at(b, p, ser_stmt(s)),
    ensures
        ser_stmt(s).len() >= 1,
        rd_stmt(b, p) == Ok::<(SpecStmt, int), FormatError>((s, p + ser_stmt(s).len())),
    decreases s, 0nat,
{
    if let SpecStmt::While { condition, body } = s {
        lemma_split(b, p, seq![4u8] + ser_expr(condition), ser_stmts(body));
        lemma_split(b, p, seq![4u8], ser_expr(condition));
        lemma_rd_u8(b, p, 4u8);
        lemma_rd_expr(b, p + 1, condition);
        lemma_rd_stmts(b, p + 1 + ser_expr(condition).len(), body);
    }
}

proof fn lemma_rd_jump(b: Seq<u8>, p: int, s: SpecStmt)
    requires
        b.len() <= usize::MAX,
        s is Break || s is Continue,
        holds_at(b, p, ser_stmt(s)),
    ensures
        ser_stmt(s).len() >= 1,
        rd_stmt(b, p) == Ok::<(SpecStmt, int), FormatError>((s, p + ser_stmt(s).len())),
    decreases s, 0nat,
{
    if s is Break {
        lemma_rd_u8(b, p, 5u8);
    } else {
        lemma_rd_u8(b, p, 6u8);
    }
}

proof fn lemma_rd_return(b: Seq<u8>, p: int, s: SpecStmt)
    requires
        b.len() <= usize::MAX,
        s is Return,
        stmt_fits(s),
        holds_at(b, p, ser_stmt(s)),
    ensures
        ser_stmt(s).len() >= 1,
        rd_stmt(b, p) == Ok::<(SpecStmt, int), FormatError>((s, p + ser_stmt(s).len())),
    decreases s, 0nat,
{
    if let SpecStmt::Return(e) = s {
        match e {
            Some(x) => {
                lemma_split(b, p, seq![7u8], seq![1u8] + ser_expr(x));
                lemma_split(b, p + 1, seq![1u8], ser_expr(x));
                lemma_rd_u8(b, p, 7u8);
                lemma_rd_flag(b, p + 1, true);
                lemma_rd_expr(b, p + 2, x);
            },
            None => {
                lemma_split(b, p, seq![7u8], seq![0u8]);
                lemma_rd_u8(b, p, 7u8);
                lemma_rd_flag(b, p + 1, false);
            },
        }
    }
}

proof fn lemma_rd_block(b: Seq<u8>, p: int, s: SpecStmt)
    requires
        b.len() <= usize::MAX,
        s is Block,
        stmt_fits(s),
        holds_at(b, p, ser_stmt(s)),
    ensures
        ser_stmt(s).len() >= 1,
        rd_stmt(b, p) == Ok::<(SpecStmt, int), FormatError>((s, p + ser_stmt(s).len())),
    decreases s, 0nat,
{
    if let SpecStmt::Block(body) = s {
        lemma_split(b, p, seq![8u8], ser_stmts(body));
        lemma_rd_u8(b, p, 8u8);
        lemma_rd_stmts(b, p + 1, body);
    }
}

#[verifier::rlimit(40)]
proof fn lemma_rd_if(b: Seq<u8>, p: int, s: SpecStmt)
    requires
        b.len() <= usize::MAX,
        s is If,
        stmt_fits(s),
        holds_at(b, p, ser_stmt(s)),
    ensures
        ser_stmt(s).len() >= 1,
        rd_stmt(b, p) == Ok::<(SpecStmt, int), FormatError>((s, p + ser_stmt(s).len())),
    decreases s, 0nat,
{
    if let SpecStmt::If { condition, body, else_body } = s {
        let tail = match else_body {
            Some(eb) => seq![1u8] + ser_stmts(eb),
            None => seq![0u8],
        };
        lemma_split(b, p, seq![3u8] + ser_expr(condition) + ser_stmts(body), tail);
        lemma_split(b, p, seq![3u8] + ser_expr(condition), ser_stmts(body));
        lemma_split(b, p, seq![3u8], ser_expr(condition));
        lemma_rd_u8(b, p, 3u8);
        lemma_rd_expr(b, p + 1, condition);
        let q = p + 1 + ser_expr(condition).len();
        lemma_rd_stmts(b, q, body);
        let r = q + ser_stmts(body).len();
        match else_body {
            Some(eb) => {
                lemma_split(b, r, seq![1u8], ser_stmts(eb));
                lemma_rd_flag(b, r, true);
                lemma_rd_stmts(b, r + 1, eb);
            },
            None => {
                lemma_rd_flag(b, r, false);
            },
        }
    }
}

proof fn lemma_rd_stmts(b: Seq<u8>, p: int, s: Seq<SpecStmt>)
    requires
        b.len() <= usize::MAX,
        stmts_fit(s),
        holds_at(b, p, ser_stmts(s)),
    ensures
        ser_stmts(s).len() >= 4,
        rd_stmts(b, p) == Ok::<(Seq<SpecStmt>, int), FormatError>((s, p + ser_stmts(s).len())),
    decreases s, 3nat,
{
    lemma_split(b, p, le32(s.len() as int), ser_stmt_list(s));
    lemma_rd_le32(b, p, s.len() as int);
    lemma_rd_stmt_list(b, p + 4, s);
}

proof fn lemma_rd_stmt_list(b: Seq<u8>, p: int, s: Seq<SpecStmt>)
    requires
        b.len() <= usize::MAX,
        stmt_list_fits(s),
        holds_at(b, p, ser_stmt_list(s)),
    ensures
        rd_stmt_list(b, p, s.len()) == Ok::<(Seq<SpecStmt>, int), FormatError>(
            (s, p + ser_stmt_list(s).len()),
        ),
    decreases s, 2nat,
{
    if s.len() > 0 {
        lemma_split(b, p, ser_stmt(s[0]), ser_stmt_list(s.drop_first()));
        lemma_rd_stmt(b, p, s[0]);
        lemma_rd_stmt_list(b, p + ser_stmt(s[0]).len(), s.drop_first());
        assert(seq![s[0]] + s.drop_first() =~= s);
    } else {
        assert(s =~= Seq::<SpecStmt>::empty());
    }
}

proof fn lemma_rd_parameter_list(b: Seq<u8>, p: int, s: Seq<SpecParameter>)
    requires
        b.len() <= usize::MAX,
        forall|i: int| 0 <= i < s.len() ==> parameter_fits(#[trigger] s[i]),
        holds_at(b, p, ser_parameter_list(s)),
    ensures
        rd_parameter_list(b, p, s.len()) == Ok::<(Seq<SpecParameter>, int), FormatError>(
            (s, p + ser_parameter_list(s).len()),
        ),
    decreases s.len(),
{
    if s.len() > 0 {
        let x = s[0];
        assert(parameter_fits(s[0]));
        lemma_split(b, p, ser_parameter(x), ser_parameter_list(s.drop_first()));
        lemma_split(b, p, ser_string(x.name) + ser_flag(x.mutable), ser_flag(x.reference));
        lemma_split(b, p, ser_string(x.name), ser_flag(x.mutable));
        lemma_rd_string(b, p, x.name);
        lemma_rd_flag(b, p + ser_string(x.name).len(), x.mutable);
        lemma_rd_flag(b, p + ser_string(x.name).len() + 1, x.reference);
        assert forall|i: int| 0 <= i < s.drop_first().len() implies parameter_fits(
            #[trigger] s.drop_first()[i],
        ) by {
            assert(s.drop_first()[i] == s[i + 1]);
        }
        lemma_rd_parameter_list(b, p + ser_parameter(x).len(), s.drop_first());
        assert(seq![x] + s.drop_first() =~= s);
    } else {
        assert(s =~= Seq::<SpecParameter>::empty());
    }
}

proof fn lemma_rd_field_list(b: Seq<u8>, p: int, s: Seq<SpecField>)
    requires
        b.len() <= usize::MAX,
        forall|i: int| 0 <= i < s.len() ==> field_fits(#[trigger] s[i]),
        holds_at(b, p, ser_field_list(s)),
    ensures
        rd_field_list(b, p, s.len()) == Ok::<(Seq<SpecField>, int), FormatError>(
            (s, p + ser_field_list(s).len()),
        ),
    decreases s.len(),
{
    if s.len() > 0 {
        let x = s[0];
        assert(field_fits(s[0]));
        lemma_split(b, p, ser_field(x), ser_field_list(s.drop_first()));
        lemma_split(b, p, ser_string(x.name) + ser_flag(x.mutable), ser_flag(x.private));
        lemma_split(b, p, ser_string(x.name), ser_flag(x.mutable));
        lemma_rd_string(b, p, x.name);
        lemma_rd_flag(b, p + ser_string(x.name).len(), x.mutable);
        lemma_rd_flag(b, p + ser_string(x.name).len() + 1, x.private);
        assert forall|i: int| 0 <= i < s.drop_first().len() implies field_fits(
            #[trigger] s.drop_first()[i],
        ) by {
            assert(s.drop_first()[i] == s[i + 1]);
        }
        lemma_rd_field_list(b, p + ser_field(x).len(), s.drop_first());
        assert(seq![x] + s.drop_first() =~= s);
    } else {
        assert(s =~= Seq::<SpecField>::empty());
    }
}

proof fn lemma_rd_function(b: Seq<u8>, p: int, f: SpecFunction)
    requires
        b.len() <= usize::MAX,
        function_fits(f),
        holds_at(b, p, ser_function(f)),
    ensures
        rd_function(b, p) == Ok::<(SpecFunction, int), FormatError>((f, p + ser_function(f).len())),
{
    let a = ser_string(f.name);
    let n = f.parameters.len() as int;
    lemma_split(b, p, a + ser_flag(f.private) + le32(n) + ser_parameter_list(f.parameters), ser_stmts(f.body));
    lemma_split(b, p, a + ser_flag(f.private) + le32(n), ser_parameter_list(f.parameters));
    lemma_split(b, p, a + ser_flag(f.private), le32(n));
    lemma_split(b, p, a, ser_flag(f.private));
    lemma_rd_string(b, p, f.name);
    lemma_rd_flag(b, p + a.len(), f.private);
    lemma_rd_le32(b, p + a.len() + 1, n);
    lemma_rd_parameter_list(b, p + a.len() + 5, f.parameters);
    lemma_rd_stmts(b, p + a.len() + 5 + ser_parameter_list(f.parameters).len(), f.body);
}

proof fn lemma_rd_function_list(b: Seq<u8>, p: int, s: Seq<SpecFunction>)
    requires
        b.len() <= usize::MAX,
        forall|i: int| 0 <= i < s.len() ==> function_fits(#[trigger] s[i]),
        holds_at(b, p, ser_function_list(s)),
    ensures
        rd_function_list(b, p, s.len()) == Ok::<(Seq<SpecFunction>, int), FormatError>(
            (s, p + ser_function_list(s).len()),
        ),
    decreases s.len(),
{
    if s.len() > 0 {
        let x = s[0];
        assert(function_fits(s[0]));
        lemma_split(b, p, ser_function(x), ser_function_list(s.drop_first()));
        lemma_rd_function(b, p, x);
        assert forall|i: int| 0 <= i < s.drop_first().len() implies function_fits(
            #[trigger] s.drop_first()[i],
        ) by {
            assert(s.drop_first()[i] == s[i + 1]);
        }
        lemma_rd_function_list(b, p + ser_function(x).len(), s.drop_first());
        assert(seq![x] + s.drop_first() =~= s);
    } else {
        assert(s =~= Seq::<SpecFunction>::empty());
    }
}

#[verifier::rlimit(40)]
proof fn lemma_rd_object(b: Seq<u8>, p: int, o: SpecObject)
    requires
        b.len() <= usize::MAX,
        object_fits(o),
        holds_at(b, p, ser_object(o)),
    ensures
        rd_object(b, p) == Ok::<(SpecObject, int), FormatError>((o, p + ser_object(o).len())),
{
    let a = ser_string(o.name);
    let nf = o.fields.len() as int;
    let nm = o.methods.len() as int;
    let ctor = match o.constructor {
        Some(c) => seq![1u8] + ser_function(c),
        None => seq![0u8],
    };
    let x0 = a + le32(nf);
    let x1 = x0 + ser_field_list(o.fields);
    let x2 = x1 + ctor;
    let x3 = x2 + le32(nm);
    lemma_split(b, p, x3, ser_function_list(o.methods));
    lemma_split(b, p, x2, le32(nm));
    lemma_split(b, p, x1, ctor);
    lemma_split(b, p, x0, ser_field_list(o.fields));
    lemma_split(b, p, a, le32(nf));
    lemma_rd_string(b, p, o.name);
    lemma_rd_le32(b, p + a.len(), nf);
    lemma_rd_field_list(b, p + a.len() + 4, o.fields);
    let t = p + x1.len();
    match o.constructor {
        Some(c) => {
            lemma_split(b, t, seq![1u8], ser_function(c));
            lemma_rd_flag(b, t, true);
            lemma_rd_function(b, t + 1, c);
        },
        None => {
            lemma_rd_flag(b, t, false);
        },
    }
    lemma_rd_le32(b, p + x2.len(), nm);
    lemma_rd_function_list(b, p + x3.len(), o.methods);
}

proof fn lemma_rd_item(b: Seq<u8>, p: int, i: SpecItem)
    requires
        b.len() <= usize::MAX,
        item_fits(i),
        holds_at(b, p, ser_item(i)),
    ensures
        ser_item(i).len() >= 1,
        rd_item(b, p) == Ok::<(SpecItem, int), FormatError>((i, p + ser_item(i).len())),
    decreases i, 1nat,
{
    match i {
        SpecItem::Statement(_) => lemma_rd_statement_item(b, p, i),
        SpecItem::Function(_) => lemma_rd_function_item(b, p, i),
        SpecItem::Object(_) => lemma_rd_object_item(b, p, i),
        SpecItem::Namespace(_) => lemma_rd_namespace(b, p, i),
        SpecItem::Entry(_) => lemma_rd_entry(b, p, i),
    }
}

proof fn lemma_rd_statement_item(b: Seq<u8>, p: int, i: SpecItem)
    requires
        b.len() <= usize::MAX,
        i is Statement,
        item_fits(i),
        holds_at(b, p, ser_item(i)),
    ensures
        ser_item(i).len() >= 1,
        rd_item(b, p) == Ok::<(SpecItem, int), FormatError>((i, p + ser_item(i).len())),
    decreases i, 0nat,
{
    if let SpecItem::Statement(s) = i {
        lemma_split(b, p, seq![0u8], ser_stmt(s));
        lemma_rd_u8(b, p, 0u8);
        lemma_rd_stmt(b, p + 1, s);
    }
}

proof fn lemma_rd_function_item(b: Seq<u8>, p: int, i: SpecItem)
    requires
        b.len() <= usize::MAX,
        i is Function,
        item_fits(i),
        holds_at(b, p, ser_item(i)),
    ensures
        ser_item(i).len() >= 1,
        rd_item(b, p) == Ok::<(SpecItem, int), FormatError>((i, p + ser_item(i).len())),
    decreases i, 0nat,
{
    if let SpecItem::Function(f) = i {
        lemma_split(b, p, seq![1u8], ser_function(f));
        lemma_rd_u8(b, p, 1u8);
        lemma_rd_function(b, p + 1, f);
    }
}

proof fn lemma_rd_object_item(b: Seq<u8>, p: int, i: SpecItem)
    requires
        b.len() <= usize::MAX,
        i is Object,
        item_fits(i),
        holds_at(b, p, ser_item(i)),
    ensures
        ser_item(i).len() >= 1,
        rd_item(b, p) == Ok::<(SpecItem, int), FormatError>((i, p + ser_item(i).len())),
    decreases i, 0nat,
{
    if let SpecItem::Object(o) = i {
        lemma_split(b, p, seq![2u8], ser_object(o));
        lemma_rd_u8(b, p, 2u8);
        lemma_rd_object(b, p + 1, o);
    }
}

proof fn lemma_rd_entry(b: Seq<u8>, p: int, i: SpecItem)
    requires
        b.len() <= usize::MAX,
        i is Entry,
        item_fits(i),
        holds_at(b, p, ser_item(i)),
    ensures
        ser_item(i).len() >= 1,
        rd_item(b, p) == Ok::<(SpecItem, int), FormatError>((i, p + ser_item(i).len())),
    decreases i, 0nat,
{
    if let SpecItem::Entry(body) = i {
        lemma_split(b, p, seq![4u8], ser_stmts(body));
        lemma_rd_u8(b, p, 4u8);
        lemma_rd_stmts(b, p + 1, body);
    }
}

proof fn lemma_rd_namespace(b: Seq<u8>, p: int, i: SpecItem)
    requires
        b.len() <= usize::MAX,
        i is Namespace,
        item_fits(i),
        holds_at(b, p, ser_item(i)),
    ensures
        ser_item(i).len() >= 1,
        rd_item(b, p) == Ok::<(SpecItem, int), FormatError>((i, p + ser_item(i).len())),
    decreases i, 0nat,
{
    if let SpecItem::Namespace(n) = i {
        lemma_split(b, p, seq![3u8] + ser_string(n.name), ser_items(n.items));
        lemma_split(b, p, seq![3u8], ser_string(n.name));
        lemma_rd_u8(b, p, 3u8);
        lemma_rd_string(b, p + 1, n.name);
        lemma_rd_items(b, p + 1 + ser_string(n.name).len(), n.items);
    }
}

proof fn lemma_rd_items(b: Seq<u8>, p: int, s: Seq<SpecItem>)
    requires
        b.len() <= usize::MAX,
        items_fit(s),
        holds_at(b, p, ser_items(s)),
    ensures
        ser_items(s).len() >= 4,
        rd_items(b, p) == Ok::<(Seq<SpecItem>, int), FormatError>((s, p + ser_items(s).len())),
    decreases s, 3nat,
{
    lemma_split(b, p, le32(s.len() as int), ser_item_list(s));
    lemma_rd_le32(b, p, s.len() as int);
    lemma_rd_item_list(b, p + 4, s);
}

proof fn lemma_rd_item_list(b: Seq<u8>, p: int, s: Seq<SpecItem>)
    requires
        b.len() <= usize::MAX,
        item_list_fits(s),
        holds_at(b, p, ser_item_list(s)),
    ensures
        rd_item_list(b, p, s.len()) == Ok::<(Seq<SpecItem>, int), FormatError>(
            (s, p + ser_item_list(s).len()),
        ),
    decreases s, 2nat,
{
    if s.len() > 0 {
        lemma_split(b, p, ser_item(s[0]), ser_item_list(s.drop_first()));
        lemma_rd_item(b, p, s[0]);
        lemma_rd_item_list(b, p + ser_item(s[0]).len(), s.drop_first());
        assert(seq![s[0]] + s.drop_first() =~= s);
    } else {
        assert(s =~= Seq::<SpecItem>::empty());
    }
}

/// Reading the bytes of a program gives the program back, whenever its counts
/// and string lengths fit in the format's 32-bit fields.
pub proof fn lemma_program_roundtrip(p: SpecProgram)
    requires
        program_fits(p),
        ser_program(p).len() <= usize::MAX,
    ensures
        rd_program(ser_program(p)) == Ok::<SpecProgram, FormatError>(p),
{
    let b = ser_program(p);
    assert(b.subrange(0, b.len() as int) =~= b);
    lemma_split(b, 0, crst_magic() + seq![1u8], ser_items(p.items));
    lemma_split(b, 0, crst_magic(), seq![1u8]);
    lemma_rd_u8(b, 4, 1u8);
    lemma_rd_items(b, 5, p.items);
}

pub open spec fn type_fits(t: SpecType) -> bool
    decreases t,
{
    match t {
        SpecType::Identifier(v) => string_fits(v),
        SpecType::String(v) => string_fits(v),
        SpecType::Get(ts) => ts.len() <= u32::MAX && token_list_fits(ts),
        _ => true,
    }
}

pub open spec fn token_fits(t: SpecToken) -> bool
    decreases t,
{
    type_fits(t.token_type) && t.line <= u32::MAX && t.column <= u32::MAX && string_fits(t.file)
}

pub open spec fn token_list_fits(s: Seq<SpecToken>) -> bool
    decreases s,
{
    s.len() > 0 ==> token_fits(s[0]) && token_list_fits(s.drop_first())
}

pub open spec fn has_payload(t: SpecType) -> bool {
    ||| t is Identifier
    ||| t is Integer
    ||| t is Float
    ||| t is String
    ||| t is Char
    ||| t is Boolean
    ||| t is Get
}

proof fn lemma_simple_tag(t: SpecType)
    requires
        !has_payload(t),
    ensures
        type_tag(t) <= 47,
        !(20 <= type_tag(t) <= 26),
        simple_type_of_tag(type_tag(t)) == t,
{
}

#[verifier::rlimit(40)]
proof fn lemma_rd_type(b: Seq<u8>, p: int, t: SpecType)
    requires
        b.len() <= usize::MAX,
        type_fits(t),
        holds_at(b, p, ser_type(t)),
    ensures
        ser_type(t).len() >= 1,
        rd_type(b, p) == Ok::<(SpecType, int), FormatError>((t, p + ser_type(t).len())),
    decreases t,
{
    let tag = type_tag(t);
    match t {
        SpecType::Identifier(v) => {
            lemma_split(b, p, seq![tag], ser_string(v));
            lemma_rd_u8(b, p, tag);
            lemma_rd_string(b, p + 1, v);
        },
        SpecType::Integer(v) => {
            lemma_split(b, p, seq![tag], le64(v as u64));
            lemma_rd_u8(b, p, tag);
            lemma_rd_le64(b, p + 1, v as u64);
            assert((v as u64) as i64 == v) by (bit_vector);
        },
        SpecType::Float(v) => {
            lemma_split(b, p, seq![tag], le64(v));
            lemma_rd_u8(b, p, tag);
            lemma_rd_le64(b, p + 1, v);
        },
        SpecType::String(v) => {
            lemma_split(b, p, seq![tag], ser_string(v));
            lemma_rd_u8(b, p, tag);
            lemma_rd_string(b, p + 1, v);
        },
        SpecType::Char(c) => {
            lemma_split(b, p, seq![tag], le32(c as int));
            lemma_rd_u8(b, p, tag);
            lemma_rd_char(b, p + 1, c);
            lemma_rd_le32(b, p + 1, c as int);
        },
        SpecType::Boolean(v) => {
            lemma_split(b, p, seq![tag], ser_flag(v));
            lemma_rd_u8(b, p, tag);
            lemma_rd_flag(b, p + 1, v);
        },
        SpecType::Get(ts) => {
            lemma_split(b, p, seq![tag], le32(ts.len() as int) + ser_token_list(ts));
            lemma_split(b, p + 1, le32(ts.len() as int), ser_token_list(ts));
            lemma_rd_u8(b, p, tag);
            lemma_rd_le32(b, p + 1, ts.len() as int);
            lemma_rd_token_list(b, p + 5, ts);
        },
        _ => {
            lemma_simple_tag(t);
            assert(ser_type(t) =~= seq![tag]);
            lemma_rd_u8(b, p, tag);
        },
    }
}

proof fn lemma_rd_token(b: Seq<u8>, p: int, t: SpecToken)
    requires
        b.len() <= usize::MAX,
        token_fits(t),
        holds_at(b, p, ser_token(t)),
    ensures
        ser_token(t).len() >= 1,
        rd_token(b, p) == Ok::<(SpecToken, int), FormatError>((t, p + ser_token(t).len())),
    decreases t,
{
    let a = ser_type(t.token_type);
    lemma_split(b, p, a + le32(t.line as int) + le32(t.column as int), ser_string(t.file));
    lemma_split(b, p, a + le32(t.line as int), le32(t.column as int));
    lemma_split(b, p, a, le32(t.line as int));
    lemma_rd_type(b, p, t.token_type);
    lemma_rd_le32(b, p + a.len(), t.line as int);
    lemma_rd_le32(b, p + a.len() + 4, t.column as int);
    lemma_rd_string(b, p + a.len() + 8, t.file);
}

proof fn lemma_rd_token_list(b: Seq<u8>, p: int, s: Seq<SpecToken>)
    requires
        b.len() <= usize::MAX,
        token_list_fits(s),
        holds_at(b, p, ser_token_list(s)),
    ensures
        rd_token_list(b, p, s.len()) == Ok::<(Seq<SpecToken>, int), FormatError>(
            (s, p + ser_token_list(s).len()),
        ),
    decreases s,
{
    if s.len() > 0 {
        lemma_split(b, p, ser_token(s[0]), ser_token_list(s.drop_first()));
        lemma_rd_token(b, p, s[0]);
        lemma_rd_token_list(b, p + ser_token(s[0]).len(), s.drop_first());
        assert(seq![s[0]] + s.drop_first() =~= s);
    } else {
        assert(s =~= Seq::<SpecToken>::empty());
    }
}

/// Reading a token where one was written gives it back, nested tokens
/// included, and moves past exactly its bytes.
pub proof fn lemma_token_roundtrip(t: SpecToken, rest: Seq<u8>)
    requires
        token_fits(t),
        ser_token(t).len() + rest.len() <= usize::MAX,
    ensures
        rd_token(ser_token(t) + rest, 0) == Ok::<(SpecToken, int), FormatError>(
            (t, ser_token(t).len() as int),
        ),
{
    let b = ser_token(t) + rest;
    lemma_split_head(ser_token(t), rest);
    lemma_rd_token(b, 0, t);
}

/// Reading a statement where one was written gives it back and moves past
/// exactly its bytes, as long as its counts and string lengths fit in 32 bits.
pub proof fn lemma_stmt_roundtrip(s: SpecStmt, rest: Seq<u8>)
    requires
        stmt_fits(s),
        ser_stmt(s).len() + rest.len() <= usize::MAX,
    ensures
        rd_stmt(ser_stmt(s) + rest, 0) == Ok::<(SpecStmt, int), FormatError>(
            (s, ser_stmt(s).len() as int),
        ),
{
    lemma_split_head(ser_stmt(s), rest);
    lemma_rd_stmt(ser_stmt(s) + rest, 0, s);
}

/// Reading a token kind where one was written gives it back (nested tokens
/// included) and moves past exactly its bytes, as long as its counts and
/// string lengths fit in 32 bits.
pub proof fn lemma_type_roundtrip(t: SpecType, rest: Seq<u8>)
    requires
        type_fits(t),
        ser_type(t).len() + rest.len() <= usize::MAX,
    ensures
        rd_type(ser_type(t) + rest, 0) == Ok::<(SpecType, int), FormatError>(
            (t, ser_type(t).len() as int),
        ),
{
    lemma_split_head(ser_type(t), rest);
    lemma_rd_type(ser_type(t) + rest, 0, t);
}

/// Each binary operator's tag reads back as that operator, and no tag from
/// 14 on stands for an operator.
pub proof fn lemma_binary_tags(op: BinaryOp, tag: u8)
    ensures
        binary_of_tag(binary_tag(op)) == Some(op),
        tag >= 14 ==> binary_of_tag(tag) is None,
{
}

proof fn lemma_split_head(x: Seq<u8>, y: Seq<u8>)
    ensures
        holds_at(x + y, 0, x),
{
    assert((x + y).subrange(0, x.len() as int) =~= x);
}

/// The CRST tags of the jump statements: `break` is written as the byte 5
/// and `continue` as the byte 6, and wherever a statement is read, the byte
/// 5 reads as `break` and the byte 6 as `continue`.
pub proof fn lemma_jump_tags(b: Seq<u8>, p: int)
    requires
        0 <= p < b.len(),
        b.len() <= usize::MAX,
    ensures
        ser_stmt(SpecStmt::Break) == seq![5u8],
        ser_stmt(SpecStmt::Continue) == seq![6u8],
        b[p] == 5 ==> rd_stmt(b, p) == Ok::<(SpecStmt, int), FormatError>((SpecStmt::Break, p + 1)),
        b[p] == 6 ==> rd_stmt(b, p) == Ok::<(SpecStmt, int), FormatError>((SpecStmt::Continue, p + 1)),
{
    assert(b.subrange(p, p + 1)[0] == b[p]);
}

/// The byte that opens the writing of each kind of statement in the CRST
/// format: let 0, assignment 1, expression 2, if 3, while 4, break 5,
/// continue 6, return 7, block 8.
pub open spec fn stmt_kind_byte(s: SpecStmt) -> u8 {
    match s {
        SpecStmt::Let { .. } => 0,
        SpecStmt::Assign { .. } => 1,
        SpecStmt::Expr(_) => 2,
        SpecStmt::If { .. } => 3,
        SpecStmt::While { .. } => 4,
        SpecStmt::Break => 5,
        SpecStmt::Continue => 6,
        SpecStmt::Return(_) => 7,
        SpecStmt::Block(_) => 8,
    }
}

/// The byte that opens the writing of each kind of expression: integer 0,
/// float 1, string 2, char 3, boolean 4, name 5, unary 6, binary 7, call 8,
/// access 9, group 10.
pub open spec fn expr_kind_byte(e: SpecExpr) -> u8 {
    match e {
        SpecExpr::Integer(_) => 0,
        SpecExpr::Float(_) => 1,
        SpecExpr::String(_) => 2,
        SpecExpr::Char(_) => 3,
        SpecExpr::Boolean(_) => 4,
        SpecExpr::Name(_) => 5,
        SpecExpr::Unary { .. } => 6,
        SpecExpr::Binary { .. } => 7,
        SpecExpr::Call { .. } => 8,
        SpecExpr::Access { .. } => 9,
        SpecExpr::Group(_) => 10,
    }
}

/// The number of each binary operator in the format, in the order the
/// operators are declared: `+` 0, `-` 1, `*` 2, `/` 3, `%` 4, `^` 5, `==` 6,
/// `!=` 7, `<` 8, `<=` 9, `>` 10, `>=` 11, `&&` 12, `||` 13.
pub open spec fn operator_number(op: BinaryOp) -> u8 {
    match op {
        BinaryOp::Add => 0,
        BinaryOp::Subtract => 1,
        BinaryOp::Multiply => 2,
        BinaryOp::Divide => 3,
        BinaryOp::Remainder => 4,
        BinaryOp::Exponent => 5,
        BinaryOp::Equal => 6,
        BinaryOp::NotEqual => 7,
        BinaryOp::Less => 8,
        BinaryOp::LessOrEqual => 9,
        BinaryOp::Greater => 10,
        BinaryOp::GreaterOrEqual => 11,
        BinaryOp::And => 12,
        BinaryOp::Or => 13,
    }
}

/// The byte that opens the writing of each kind of item: statement 0,
/// function 1, object 2, namespace 3, entry 4.
pub open spec fn item_kind_byte(i: SpecItem) -> u8 {
    match i {
        SpecItem::Statement(_) => 0,
        SpecItem::Function(_) => 1,
        SpecItem::Object(_) => 2,
        SpecItem::Namespace(_) => 3,
        SpecItem::Entry(_) => 4,
    }
}

/// Every statement is written opening with its kind's byte; `break` and
/// `continue` are that byte alone.
pub proof fn lemma_stmt_kind_bytes(s: SpecStmt)
    ensures
        ser_stmt(s).len() >= 1,
        ser_stmt(s)[0] == stmt_kind_byte(s),
        s is Break ==> ser_stmt(s) == seq![5u8],
        s is Continue ==> ser_stmt(s) == seq![6u8],
{
}

/// Every expression is written opening with its kind's byte; a unary
/// expression then has `!` as 0 and `-` as 1, a binary one its operator's
/// number, an access `::` as 0 and `:>` as 1.
pub proof fn lemma_expr_kind_bytes(e: SpecExpr)
    ensures
        ser_expr(e).len() >= 1,
        ser_expr(e)[0] == expr_kind_byte(e),
        e matches SpecExpr::Unary { operator, .. } ==> ser_expr(e)[1] == (if operator == UnaryOp::Not { 0u8 } else { 1u8 }),
        e matches SpecExpr::Binary { operator, .. } ==> ser_expr(e)[1] == operator_number(operator),
        e matches SpecExpr::Access { operator, .. } ==> ser_expr(e)[1] == (if operator == AccessOp::Namespace { 0u8 } else { 1u8 }),
        e matches SpecExpr::Boolean(v) ==> ser_expr(e) == seq![4u8, if v { 1u8 } else { 0u8 }],
{
    if let SpecExpr::Boolean(v) = e {
        assert(ser_expr(e) =~= seq![4u8, if v { 1u8 } else { 0u8 }]);
    }
}

/// Every program is written opening with the bytes `CRST` and the format
/// version 1.
pub proof fn lemma_program_header(p: SpecProgram)
    ensures
        ser_program(p).len() >= 5,
        ser_program(p).subrange(0, 5) == seq![67u8, 82u8, 83u8, 84u8, 1u8],
{
    assert(ser_program(p).subrange(0, 5) =~= seq![67u8, 82u8, 83u8, 84u8, 1u8]);
}

/// Every item is written opening with its kind's byte.
pub proof fn lemma_item_kind_bytes(i: SpecItem)
    ensures
        ser_item(i).len() >= 1,
        ser_item(i)[0] == item_kind_byte(i),
{
}

} // verus!
