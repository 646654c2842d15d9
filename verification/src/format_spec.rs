//! The CRST binary format of a program, stated as mathematics: what the
//! writer produces (`ser_*`) and what the reader makes of a byte sequence
//! (`rd_*`, reading at a position and returning the position after the value).
use vstd::prelude::*;
use vstd::bytes::{spec_u32_to_le_bytes, spec_u32_from_le_bytes, spec_u64_to_le_bytes, spec_u64_from_le_bytes};
use vstd::utf8::{encode_utf8, decode_utf8, valid_utf8, is_scalar};
use crate::ast::{
    AccessOp, BinaryOp, SpecExpr, SpecField, SpecFunction, SpecItem, SpecNamespace, SpecObject,
    SpecParameter, SpecProgram, SpecStmt, UnaryOp,
};
use crate::token::{SpecToken, SpecType};

verus! {

/// Why a byte sequence is not a CRST program.
#[derive(Debug, Clone, Copy, PartialEq, Eq, Structural)]
pub enum FormatError {
    InvalidHeader,
    UnsupportedVersion,
    TrailingBytes,
    InvalidLength,
    UnexpectedEnd,
    InvalidUtf8,
    InvalidFlag,
    InvalidCharacter,
    UnknownItemTag(u8),
    UnknownTokenTag(u8),
    UnknownStatementTag(u8),
    UnknownUnaryOperatorTag(u8),
    UnknownBinaryOperatorTag(u8),
    UnknownAccessOperatorTag(u8),
    UnknownExpressionTag(u8),
}

/// The decimal digits of a natural number.
pub open spec fn decimal(n: nat) -> Seq<char>
    decreases n,
{
    if n < 10 {
        seq![digit_char(n)]
    } else {
        decimal(n / 10).push(digit_char(n % 10))
    }
}

pub open spec fn digit_char(d: nat) -> char {
    if d == 0 { '0' } else if d == 1 { '1' } else if d == 2 { '2' } else if d == 3 { '3' }
    else if d == 4 { '4' } else if d == 5 { '5' } else if d == 6 { '6' } else if d == 7 { '7' }
    else if d == 8 { '8' } else { '9' }
}

/// The message that the reader gives for each error.
pub open spec fn format_message(e: FormatError) -> Seq<char> {
    match e {
        FormatError::InvalidHeader => "invalid CRST header"@,
        FormatError::UnsupportedVersion => "unsupported CRST format version"@,
        FormatError::TrailingBytes => "trailing bytes after CRST program"@,
        FormatError::InvalidLength => "invalid byte length"@,
        FormatError::UnexpectedEnd => "unexpected end of CRST data"@,
        FormatError::InvalidUtf8 => "invalid UTF-8 string in CRST data"@,
        FormatError::InvalidFlag => "invalid boolean flag in CRST data"@,
        FormatError::InvalidCharacter => "invalid character"@,
        FormatError::UnknownItemTag(t) => "unknown item tag "@ + decimal(t as nat),
        FormatError::UnknownTokenTag(t) => "unknown token tag "@ + decimal(t as nat),
        FormatError::UnknownStatementTag(t) => "unknown statement tag "@ + decimal(t as nat),
        FormatError::UnknownUnaryOperatorTag(t) => "unknown unary operator tag "@ + decimal(t as nat),
        FormatError::UnknownBinaryOperatorTag(t) => "unknown binary operator tag "@ + decimal(t as nat),
        FormatError::UnknownAccessOperatorTag(t) => "unknown access operator tag "@ + decimal(t as nat),
        FormatError::UnknownExpressionTag(t) => "unknown expression tag "@ + decimal(t as nat),
    }
}

// ---------------------------------------------------------------------------
// Writing
// ---------------------------------------------------------------------------

/// A count written as four little-endian bytes (truncated to 32 bits).
pub open spec fn le32(n: int) -> Seq<u8> {
    spec_u32_to_le_bytes(n as u32)
}

pub open spec fn le64(n: u64) -> Seq<u8> {
    spec_u64_to_le_bytes(n)
}

pub open spec fn ser_flag(b: bool) -> Seq<u8> {
    seq![if b { 1u8 } else { 0u8 }]
}

/// A string: its UTF-8 length, then its UTF-8 bytes.
pub open spec fn ser_string(s: Seq<char>) -> Seq<u8> {
    le32(encode_utf8(s).len() as int) + encode_utf8(s)
}

/// The four bytes that open every CRST file.
pub open spec fn crst_magic() -> Seq<u8> {
    seq![67u8, 82u8, 83u8, 84u8]
}

pub open spec fn unary_tag(op: UnaryOp) -> u8 {
    match op {
        UnaryOp::Not => 0,
        UnaryOp::Negate => 1,
    }
}

pub open spec fn access_tag(op: AccessOp) -> u8 {
    match op {
        AccessOp::Namespace => 0,
        AccessOp::Member => 1,
    }
}

pub open spec fn binary_tag(op: BinaryOp) -> u8 {
    match op {
        BinaryOp::Add => 0,
        BinaryOp::Subtract => 1,
        BinaryOp::Multiply => 2,
        BinaryOp::Divide => 3,
        BinaryOp::Remainder => 4,
        BinaryOp::Exponent => 5,
        BinaryOp::Equal => 6,
        BinaryOp::NotEqual => 7,
        BinaryOp::Less => 8,
        BinaryOp::LessOrEqual => 9,
        BinaryOp::Greater => 10,
        BinaryOp::GreaterOrEqual => 11,
        BinaryOp::And => 12,
        BinaryOp::Or => 13,
    }
}

/// The operator that a binary operator tag stands for.
pub open spec fn binary_of_tag(tag: u8) -> Option<BinaryOp> {
    if tag == 0 { Some(BinaryOp::Add) }
    else if tag == 1 { Some(BinaryOp::Subtract) }
    else if tag == 2 { Some(BinaryOp::Multiply) }
    else if tag == 3 { Some(BinaryOp::Divide) }
    else if tag == 4 { Some(BinaryOp::Remainder) }
    else if tag == 5 { Some(BinaryOp::Exponent) }
    else if tag == 6 { Some(BinaryOp::Equal) }
    else if tag == 7 { Some(BinaryOp::NotEqual) }
    else if tag == 8 { Some(BinaryOp::Less) }
    else if tag == 9 { Some(BinaryOp::LessOrEqual) }
    else if tag == 10 { Some(BinaryOp::Greater) }
    else if tag == 11 { Some(BinaryOp::GreaterOrEqual) }
    else if tag == 12 { Some(BinaryOp::And) }
    else if tag == 13 { Some(BinaryOp::Or) }
    else { None }
}

pub open spec fn ser_expr(e: SpecExpr) -> Seq<u8>
    decreases e,
{
    match e {
        SpecExpr::Integer(v) => seq![0u8] + le64(v as u64),
        SpecExpr::Float(v) => seq![1u8] + le64(v),
        SpecExpr::String(v) => seq![2u8] + ser_string(v),
        SpecExpr::Char(c) => seq![3u8] + le32(c as int),
        SpecExpr::Boolean(b) => seq![4u8] + ser_flag(b),
        SpecExpr::Name(v) => seq![5u8] + ser_string(v),
        SpecExpr::Unary { operator, value } => seq![6u8, unary_tag(operator)] + ser_expr(*value),
        SpecExpr::Binary { left, operator, right } => seq![7u8, binary_tag(operator)]
            + ser_expr(*left) + ser_expr(*right),
        SpecExpr::Call { callee, arguments } => seq![8u8] + ser_expr(*callee)
            + le32(arguments.len() as int) + ser_expr_list(arguments),
        SpecExpr::Access { value, operator, member } => seq![9u8, access_tag(operator)]
            + ser_expr(*value) + ser_string(member),
        SpecExpr::Group(value) => seq![10u8] + ser_expr(*value),
    }
}

/// The expressions one after the other (their count is written before).
pub open spec fn ser_expr_list(s: Seq<SpecExpr>) -> Seq<u8>
    decreases s,
{
    if s.len() == 0 {
        Seq::empty()
    } else {
        ser_expr(s[0]) + ser_expr_list(s.drop_first())
    }
}

pub open spec fn ser_stmt(s: SpecStmt) -> Seq<u8>
    decreases s, 0nat,
{
    match s {
        SpecStmt::Let { mutable, name, value } => seq![0u8] + ser_flag(mutable) + ser_string(name)
            + ser_expr(value),
        SpecStmt::Assign { target, value } => seq![1u8] + ser_expr(target) + ser_expr(value),
        SpecStmt::Expr(e) => seq![2u8] + ser_expr(e),
        SpecStmt::If { condition, body, else_body } => seq![3u8] + ser_expr(condition) + ser_stmts(
            body,
        ) + match else_body {
            Some(b) => seq![1u8] + ser_stmts(b),
            None => seq![0u8],
        },
        SpecStmt::While { condition, body } => seq![4u8] + ser_expr(condition) + ser_stmts(body),
        SpecStmt::Break => seq![5u8],
        SpecStmt::Continue => seq![6u8],
        SpecStmt::Return(e) => seq![7u8] + match e {
            Some(e) => seq![1u8] + ser_expr(e),
            None => seq![0u8],
        },
        SpecStmt::Block(b) => seq![8u8] + ser_stmts(b),
    }
}

pub open spec fn ser_stmt_list(s: Seq<SpecStmt>) -> Seq<u8>
    decreases s, 0nat,
{
    if s.len() == 0 {
        Seq::empty()
    } else {
        ser_stmt(s[0]) + ser_stmt_list(s.drop_first())
    }
}

/// A list of statements with its count in front.
pub open spec fn ser_stmts(s: Seq<SpecStmt>) -> Seq<u8>
    decreases s, 1nat,
{
    le32(s.len() as int) + ser_stmt_list(s)
}

pub open spec fn ser_parameter(p: SpecParameter) -> Seq<u8> {
    ser_string(p.name) + ser_flag(p.mutable) + ser_flag(p.reference)
}

pub open spec fn ser_parameter_list(s: Seq<SpecParameter>) -> Seq<u8>
    decreases s.len(),
{
    if s.len() == 0 {
        Seq::empty()
    } else {
        ser_parameter(s[0]) + ser_parameter_list(s.drop_first())
    }
}

pub open spec fn ser_function(f: SpecFunction) -> Seq<u8> {
    ser_string(f.name) + ser_flag(f.private) + le32(f.parameters.len() as int)
        + ser_parameter_list(f.parameters) + ser_stmts(f.body)
}

pub open spec fn ser_function_list(s: Seq<SpecFunction>) -> Seq<u8>
    decreases s.len(),
{
    if s.len() == 0 {
        Seq::empty()
    } else {
        ser_function(s[0]) + ser_function_list(s.drop_first())
    }
}

pub open spec fn ser_field(f: SpecField) -> Seq<u8> {
    ser_string(f.name) + ser_flag(f.mutable) + ser_flag(f.private)
}

pub open spec fn ser_field_list(s: Seq<SpecField>) -> Seq<u8>
    decreases s.len(),
{
    if s.len() == 0 {
        Seq::empty()
    } else {
        ser_field(s[0]) + ser_field_list(s.drop_first())
    }
}

pub open spec fn ser_object(o: SpecObject) -> Seq<u8> {
    ser_string(o.name) + le32(o.fields.len() as int) + ser_field_list(o.fields) + match o.constructor {
        Some(c) => seq![1u8] + ser_function(c),
        None => seq![0u8],
    } + le32(o.methods.len() as int) + ser_function_list(o.methods)
}

pub open spec fn ser_item(i: SpecItem) -> Seq<u8>
    decreases i, 0nat,
{
    match i {
        SpecItem::Statement(s) => seq![0u8] + ser_stmt(s),
        SpecItem::Function(f) => seq![1u8] + ser_function(f),
        SpecItem::Object(o) => seq![2u8] + ser_object(o),
        SpecItem::Namespace(n) => seq![3u8] + ser_string(n.name) + ser_items(n.items),
        SpecItem::Entry(b) => seq![4u8] + ser_stmts(b),
    }
}

pub open spec fn ser_item_list(s: Seq<SpecItem>) -> Seq<u8>
    decreases s, 0nat,
{
    if s.len() == 0 {
        Seq::empty()
    } else {
        ser_item(s[0]) + ser_item_list(s.drop_first())
    }
}

/// A list of items with its count in front.
pub open spec fn ser_items(s: Seq<SpecItem>) -> Seq<u8>
    decreases s, 1nat,
{
    le32(s.len() as int) + ser_item_list(s)
}

/// The bytes of a whole program: magic, format version 1, then the items.
pub open spec fn ser_program(p: SpecProgram) -> Seq<u8> {
    crst_magic() + seq![1u8] + ser_items(p.items)
}

/// The tag of a token kind.
pub open spec fn type_tag(t: SpecType) -> u8 {
    match t {
        SpecType::EOL => 0,
        SpecType::EOF => 1,
        SpecType::Mut => 2,
        SpecType::Immut => 3,
        SpecType::Ref => 4,
        SpecType::Func => 5,
        SpecType::Private => 6,
        SpecType::Colon => 7,
        SpecType::DoubleColon => 8,
        SpecType::ColonArrow => 9,
        SpecType::If => 10,
        SpecType::Else => 11,
        SpecType::While => 12,
        SpecType::Break => 13,
        SpecType::Continue => 14,
        SpecType::Ret => 15,
        SpecType::Object => 16,
        SpecType::Namespace => 17,
        SpecType::Entry => 18,
        SpecType::Constructor => 19,
        SpecType::Identifier(_) => 20,
        SpecType::Integer(_) => 21,
        SpecType::Float(_) => 22,
        SpecType::String(_) => 23,
        SpecType::Char(_) => 24,
        SpecType::Boolean(_) => 25,
        SpecType::Get(_) => 26,
        SpecType::LParen => 27,
        SpecType::RParen => 28,
        SpecType::LBrace => 29,
        SpecType::RBrace => 30,
        SpecType::Comma => 31,
        SpecType::Equals => 32,
        SpecType::DoubleEquals => 33,
        SpecType::BangEquals => 34,
        SpecType::LessThan => 35,
        SpecType::GreaterThan => 36,
        SpecType::LessThanOrEqual => 37,
        SpecType::GreaterThanOrEqual => 38,
        SpecType::Plus => 39,
        SpecType::Minus => 40,
        SpecType::Star => 41,
        SpecType::Slash => 42,
        SpecType::Percent => 43,
        SpecType::Exponent => 44,
        SpecType::Bang => 45,
        SpecType::DoubleAmpersand => 46,
        SpecType::DoublePipe => 47,
    }
}

/// The token kind without payload that a tag stands for (tags 20 to 26 carry
/// a payload and 48 and above stand for nothing).
pub open spec fn simple_type_of_tag(tag: u8) -> SpecType {
    if tag == 0 { SpecType::EOL }
    else if tag == 1 { SpecType::EOF }
    else if tag == 2 { SpecType::Mut }
    else if tag == 3 { SpecType::Immut }
    else if tag == 4 { SpecType::Ref }
    else if tag == 5 { SpecType::Func }
    else if tag == 6 { SpecType::Private }
    else if tag == 7 { SpecType::Colon }
    else if tag == 8 { SpecType::DoubleColon }
    else if tag == 9 { SpecType::ColonArrow }
    else if tag == 10 { SpecType::If }
    else if tag == 11 { SpecType::Else }
    else if tag == 12 { SpecType::While }
    else if tag == 13 { SpecType::Break }
    else if tag == 14 { SpecType::Continue }
    else if tag == 15 { SpecType::Ret }
    else if tag == 16 { SpecType::Object }
    else if tag == 17 { SpecType::Namespace }
    else if tag == 18 { SpecType::Entry }
    else if tag == 19 { SpecType::Constructor }
    else if tag == 27 { SpecType::LParen }
    else if tag == 28 { SpecType::RParen }
    else if tag == 29 { SpecType::LBrace }
    else if tag == 30 { SpecType::RBrace }
    else if tag == 31 { SpecType::Comma }
    else if tag == 32 { SpecType::Equals }
    else if tag == 33 { SpecType::DoubleEquals }
    else if tag == 34 { SpecType::BangEquals }
    else if tag == 35 { SpecType::LessThan }
    else if tag == 36 { SpecType::GreaterThan }
    else if tag == 37 { SpecType::LessThanOrEqual }
    else if tag == 38 { SpecType::GreaterThanOrEqual }
    else if tag == 39 { SpecType::Plus }
    else if tag == 40 { SpecType::Minus }
    else if tag == 41 { SpecType::Star }
    else if tag == 42 { SpecType::Slash }
    else if tag == 43 { SpecType::Percent }
    else if tag == 44 { SpecType::Exponent }
    else if tag == 45 { SpecType::Bang }
    else if tag == 46 { SpecType::DoubleAmpersand }
    else { SpecType::DoublePipe }
}

pub open spec fn ser_type(t: SpecType) -> Seq<u8>
    decreases t,
{
    seq![type_tag(t)] + match t {
        SpecType::Identifier(v) => ser_string(v),
        SpecType::Integer(v) => le64(v as u64),
        SpecType::Float(v) => le64(v),
        SpecType::String(v) => ser_string(v),
        SpecType::Char(c) => le32(c as int),
        SpecType::Boolean(b) => ser_flag(b),
        SpecType::Get(ts) => le32(ts.len() as int) + ser_token_list(ts),
        _ => Seq::empty(),
    }
}

pub open spec fn ser_token(t: SpecToken) -> Seq<u8>
    decreases t,
{
    ser_type(t.token_type) + le32(t.line as int) + le32(t.column as int) + ser_string(t.file)
}

pub open spec fn ser_token_list(s: Seq<SpecToken>) -> Seq<u8>
    decreases s,
{
    if s.len() == 0 {
        Seq::empty()
    } else {
        ser_token(s[0]) + ser_token_list(s.drop_first())
    }
}

// ---------------------------------------------------------------------------
// Reading
// ---------------------------------------------------------------------------

/// The `n` bytes at position `p`, and the position after them.
pub open spec fn rd_take(b: Seq<u8>, p: int, n: int) -> Result<(Seq<u8>, int), FormatError> {
    if p + n > usize::MAX {
        Err(FormatError::InvalidLength)
    } else if p + n > b.len() {
        Err(FormatError::UnexpectedEnd)
    } else {
        Ok((b.subrange(p, p + n), p + n))
    }
}

pub open spec fn rd_u8(b: Seq<u8>, p: int) -> Result<(u8, int), FormatError> {
    match rd_take(b, p, 1) {
        Ok((s, q)) => Ok((s[0], q)),
        Err(e) => Err(e),
    }
}

pub open spec fn rd_u32(b: Seq<u8>, p: int) -> Result<(u32, int), FormatError> {
    match rd_take(b, p, 4) {
        Ok((s, q)) => Ok((spec_u32_from_le_bytes(s), q)),
        Err(e) => Err(e),
    }
}

pub open spec fn rd_u64(b: Seq<u8>, p: int) -> Result<(u64, int), FormatError> {
    match rd_take(b, p, 8) {
        Ok((s, q)) => Ok((spec_u64_from_le_bytes(s), q)),
        Err(e) => Err(e),
    }
}

pub open spec fn rd_flag(b: Seq<u8>, p: int) -> Result<(bool, int), FormatError> {
    match rd_u8(b, p) {
        Ok((v, q)) => if v == 0 {
            Ok((false, q))
        } else if v == 1 {
            Ok((true, q))
        } else {
            Err(FormatError::InvalidFlag)
        },
        Err(e) => Err(e),
    }
}

pub open spec fn rd_string(b: Seq<u8>, p: int) -> Result<(Seq<char>, int), FormatError> {
    match rd_u32(b, p) {
        Ok((n, q)) => match rd_take(b, q, n as int) {
            Ok((s, r)) => if valid_utf8(s) {
                Ok((decode_utf8(s), r))
            } else {
                Err(FormatError::InvalidUtf8)
            },
            Err(e) => Err(e),
        },
        Err(e) => Err(e),
    }
}

/// A character written as its 32-bit scalar value.
pub open spec fn rd_char(b: Seq<u8>, p: int) -> Result<(char, int), FormatError> {
    match rd_u32(b, p) {
        Ok((v, q)) => if is_scalar(v) {
            Ok((v as char, q))
        } else {
            Err(FormatError::InvalidCharacter)
        },
        Err(e) => Err(e),
    }
}

/// Positions `p` and `q` with `p < q <= b.len()`: the reader moved forward.
pub open spec fn advanced(b: Seq<u8>, p: int, q: int) -> bool {
    p < q <= b.len()
}

pub open spec fn rd_expr(b: Seq<u8>, p: int) -> Result<(SpecExpr, int), FormatError>
    decreases b.len() - p, 0nat,
{
    match rd_u8(b, p) {
        Err(e) => Err(e),
        Ok((tag, p1)) => if tag == 0 {
            match rd_u64(b, p1) {
                Ok((v, q)) => Ok((SpecExpr::Integer(v as i64), q)),
                Err(e) => Err(e),
            }
        } else if tag == 1 {
            match rd_u64(b, p1) {
                Ok((v, q)) => Ok((SpecExpr::Float(v), q)),
                Err(e) => Err(e),
            }
        } else if tag == 2 {
            match rd_string(b, p1) {
                Ok((v, q)) => Ok((SpecExpr::String(v), q)),
                Err(e) => Err(e),
            }
        } else if tag == 3 {
            match rd_char(b, p1) {
                Ok((c, q)) => Ok((SpecExpr::Char(c), q)),
                Err(e) => Err(e),
            }
        } else if tag == 4 {
            match rd_flag(b, p1) {
                Ok((v, q)) => Ok((SpecExpr::Boolean(v), q)),
                Err(e) => Err(e),
            }
        } else if tag == 5 {
            match rd_string(b, p1) {
                Ok((v, q)) => Ok((SpecExpr::Name(v), q)),
                Err(e) => Err(e),
            }
        } else if tag == 6 {
            match rd_u8(b, p1) {
                Ok((o, q)) => if o == 0 || o == 1 {
                    match rd_expr(b, q) {
                        Ok((v, r)) => Ok(
                            (
                                SpecExpr::Unary {
                                    operator: if o == 0 { UnaryOp::Not } else { UnaryOp::Negate },
                                    value: Box::new(v),
                                },
                                r,
                            ),
                        ),
                        Err(e) => Err(e),
                    }
                } else {
                    Err(FormatError::UnknownUnaryOperatorTag(o))
                },
                Err(e) => Err(e),
            }
        } else if tag == 7 {
            match rd_u8(b, p1) {
                Ok((o, q)) => match binary_of_tag(o) {
                    None => Err(FormatError::UnknownBinaryOperatorTag(o)),
                    Some(op) => match rd_expr(b, q) {
                        Ok((l, r)) => if advanced(b, p, r) {
                            match rd_expr(b, r) {
                                Ok((rt, s)) => Ok(
                                    (
                                        SpecExpr::Binary {
                                            left: Box::new(l),
                                            operator: op,
                                            right: Box::new(rt),
                                        },
                                        s,
                                    ),
                                ),
                                Err(e) => Err(e),
                            }
                        } else {
                            Err(FormatError::UnexpectedEnd)
                        },
                        Err(e) => Err(e),
                    },
                },
                Err(e) => Err(e),
            }
        } else if tag == 8 {
            match rd_expr(b, p1) {
                Ok((c, q)) => if advanced(b, p, q) {
                    match rd_u32(b, q) {
                        Ok((n, r)) => match rd_expr_list(b, r, n as nat) {
                            Ok((args, s)) => Ok((SpecExpr::Call { callee: Box::new(c), arguments: args }, s)),
                            Err(e) => Err(e),
                        },
                        Err(e) => Err(e),
                    }
                } else {
                    Err(FormatError::UnexpectedEnd)
                },
                Err(e) => Err(e),
            }
        } else if tag == 9 {
            match rd_u8(b, p1) {
                Ok((o, q)) => if o == 0 || o == 1 {
                    match rd_expr(b, q) {
                        Ok((v, r)) => match rd_string(b, r) {
                            Ok((m, s)) => Ok(
                                (
                                    SpecExpr::Access {
                                        value: Box::new(v),
                                        operator: if o == 0 {
                                            AccessOp::Namespace
                                        } else {
                                            AccessOp::Member
                                        },
                                        member: m,
                                    },
                                    s,
                                ),
                            ),
                            Err(e) => Err(e),
                        },
                        Err(e) => Err(e),
                    }
                } else {
                    Err(FormatError::UnknownAccessOperatorTag(o))
                },
                Err(e) => Err(e),
            }
        } else if tag == 10 {
            match rd_expr(b, p1) {
                Ok((v, q)) => Ok((SpecExpr::Group(Box::new(v)), q)),
                Err(e) => Err(e),
            }
        } else {
            Err(FormatError::UnknownExpressionTag(tag))
        },
    }
}

/// `n` expressions one after the other.
pub open spec fn rd_expr_list(b: Seq<u8>, p: int, n: nat) -> Result<(Seq<SpecExpr>, int), FormatError>
    decreases b.len() - p, n,
{
    if n == 0 {
        Ok((Seq::empty(), p))
    } else {
        match rd_expr(b, p) {
            Ok((e, q)) => if advanced(b, p, q) {
                match rd_expr_list(b, q, (n - 1) as nat) {
                    Ok((es, r)) => Ok((seq![e] + es, r)),
                    Err(err) => Err(err),
                }
            } else {
                Err(FormatError::UnexpectedEnd)
            },
            Err(err) => Err(err),
        }
    }
}

pub open spec fn rd_stmt(b: Seq<u8>, p: int) -> Result<(SpecStmt, int), FormatError>
    decreases b.len() - p, 0nat,
{
    match rd_u8(b, p) {
        Err(e) => Err(e),
        Ok((tag, p1)) => if tag == 0 {
            match rd_flag(b, p1) {
                Ok((m, q)) => match rd_string(b, q) {
                    Ok((name, r)) => match rd_expr(b, r) {
                        Ok((v, s)) => Ok((SpecStmt::Let { mutable: m, name, value: v }, s)),
                        Err(e) => Err(e),
                    },
                    Err(e) => Err(e),
                },
                Err(e) => Err(e),
            }
        } else if tag == 1 {
            match rd_expr(b, p1) {
                Ok((t, q)) => match rd_expr(b, q) {
                    Ok((v, r)) => Ok((SpecStmt::Assign { target: t, value: v }, r)),
                    Err(e) => Err(e),
                },
                Err(e) => Err(e),
            }
        } else if tag == 2 {
            match rd_expr(b, p1) {
                Ok((e, q)) => Ok((SpecStmt::Expr(e), q)),
                Err(e) => Err(e),
            }
        } else if tag == 3 {
            match rd_expr(b, p1) {
                Ok((c, q)) => if advanced(b, p, q) {
                    match rd_stmts(b, q) {
                        Ok((body, r)) => if advanced(b, p, r) {
                            match rd_flag(b, r) {
                                Ok((has_else, s)) => if has_else {
                                    match rd_stmts(b, s) {
                                        Ok((eb, t)) => Ok(
                                            (
                                                SpecStmt::If {
                                                    condition: c,
                                                    body,
                                                    else_body: Some(eb),
                                                },
                                                t,
                                            ),
                                        ),
                                        Err(e) => Err(e),
                                    }
                                } else {
                                    Ok((SpecStmt::If { condition: c, body, else_body: None }, s))
                                },
                                Err(e) => Err(e),
                            }
                        } else {
                            Err(FormatError::UnexpectedEnd)
                        },
                        Err(e) => Err(e),
                    }
                } else {
                    Err(FormatError::UnexpectedEnd)
                },
                Err(e) => Err(e),
            }
        } else if tag == 4 {
            match rd_expr(b, p1) {
                Ok((c, q)) => if advanced(b, p, q) {
                    match rd_stmts(b, q) {
                        Ok((body, r)) => Ok((SpecStmt::While { condition: c, body }, r)),
                        Err(e) => Err(e),
                    }
                } else {
                    Err(FormatError::UnexpectedEnd)
                },
                Err(e) => Err(e),
            }
        } else if tag == 5 {
            Ok((SpecStmt::Break, p1))
        } else if tag == 6 {
            Ok((SpecStmt::Continue, p1))
        } else if tag == 7 {
            match rd_flag(b, p1) {
                Ok((has, q)) => if has {
                    match rd_expr(b, q) {
                        Ok((e, r)) => Ok((SpecStmt::Return(Some(e)), r)),
                        Err(e) => Err(e),
                    }
                } else {
                    Ok((SpecStmt::Return(None), q))
                },
                Err(e) => Err(e),
            }
        } else if tag == 8 {
            match rd_stmts(b, p1) {
                Ok((body, q)) => Ok((SpecStmt::Block(body), q)),
                Err(e) => Err(e),
            }
        } else {
            Err(FormatError::UnknownStatementTag(tag))
        },
    }
}

/// A count, then that many statements.
pub open spec fn rd_stmts(b: Seq<u8>, p: int) -> Result<(Seq<SpecStmt>, int), FormatError>
    decreases b.len() - p, 0nat,
{
    match rd_u32(b, p) {
        Ok((n, q)) => rd_stmt_list(b, q, n as nat),
        Err(e) => Err(e),
    }
}

pub open spec fn rd_stmt_list(b: Seq<u8>, p: int, n: nat) -> Result<(Seq<SpecStmt>, int), FormatError>
    decreases b.len() - p, n,
{
    if n == 0 {
        Ok((Seq::empty(), p))
    } else {
        match rd_stmt(b, p) {
            Ok((s, q)) => if advanced(b, p, q) {
                match rd_stmt_list(b, q, (n - 1) as nat) {
                    Ok((ss, r)) => Ok((seq![s] + ss, r)),
                    Err(e) => Err(e),
                }
            } else {
                Err(FormatError::UnexpectedEnd)
            },
            Err(e) => Err(e),
        }
    }
}

pub open spec fn rd_parameter(b: Seq<u8>, p: int) -> Result<(SpecParameter, int), FormatError> {
    match rd_string(b, p) {
        Ok((name, q)) => match rd_flag(b, q) {
            Ok((m, r)) => match rd_flag(b, r) {
                Ok((rf, s)) => Ok((SpecParameter { name, mutable: m, reference: rf }, s)),
                Err(e) => Err(e),
            },
            Err(e) => Err(e),
        },
        Err(e) => Err(e),
    }
}

pub open spec fn rd_parameter_list(b: Seq<u8>, p: int, n: nat) -> Result<(Seq<SpecParameter>, int), FormatError>
    decreases n,
{
    if n == 0 {
        Ok((Seq::empty(), p))
    } else {
        match rd_parameter(b, p) {
            Ok((x, q)) => match rd_parameter_list(b, q, (n - 1) as nat) {
                Ok((xs, r)) => Ok((seq![x] + xs, r)),
                Err(e) => Err(e),
            },
            Err(e) => Err(e),
        }
    }
}

pub open spec fn rd_field(b: Seq<u8>, p: int) -> Result<(SpecField, int), FormatError> {
    match rd_string(b, p) {
        Ok((name, q)) => match rd_flag(b, q) {
            Ok((m, r)) => match rd_flag(b, r) {
                Ok((pv, s)) => Ok((SpecField { name, mutable: m, private: pv }, s)),
                Err(e) => Err(e),
            },
            Err(e) => Err(e),
        },
        Err(e) => Err(e),
    }
}

pub open spec fn rd_field_list(b: Seq<u8>, p: int, n: nat) -> Result<(Seq<SpecField>, int), FormatError>
    decreases n,
{
    if n == 0 {
        Ok((Seq::empty(), p))
    } else {
        match rd_field(b, p) {
            Ok((x, q)) => match rd_field_list(b, q, (n - 1) as nat) {
                Ok((xs, r)) => Ok((seq![x] + xs, r)),
                Err(e) => Err(e),
            },
            Err(e) => Err(e),
        }
    }
}

pub open spec fn rd_function(b: Seq<u8>, p: int) -> Result<(SpecFunction, int), FormatError> {
    match rd_string(b, p) {
        Ok((name, q)) => match rd_flag(b, q) {
            Ok((private, r)) => match rd_u32(b, r) {
                Ok((n, s)) => match rd_parameter_list(b, s, n as nat) {
                    Ok((parameters, t)) => match rd_stmts(b, t) {
                        Ok((body, u)) => Ok((SpecFunction { name, private, parameters, body }, u)),
                        Err(e) => Err(e),
                    },
                    Err(e) => Err(e),
                },
                Err(e) => Err(e),
            },
            Err(e) => Err(e),
        },
        Err(e) => Err(e),
    }
}

pub open spec fn rd_function_list(b: Seq<u8>, p: int, n: nat) -> Result<(Seq<SpecFunction>, int), FormatError>
    decreases n,
{
    if n == 0 {
        Ok((Seq::empty(), p))
    } else {
        match rd_function(b, p) {
            Ok((x, q)) => match rd_function_list(b, q, (n - 1) as nat) {
                Ok((xs, r)) => Ok((seq![x] + xs, r)),
                Err(e) => Err(e),
            },
            Err(e) => Err(e),
        }
    }
}

/// The body of an object item (after its tag).
pub open spec fn rd_object(b: Seq<u8>, p: int) -> Result<(SpecObject, int), FormatError> {
    match rd_string(b, p) {
        Ok((name, q)) => match rd_u32(b, q) {
            Ok((nf, r)) => match rd_field_list(b, r, nf as nat) {
                Ok((fields, s)) => match rd_flag(b, s) {
                    Ok((has_ctor, t)) => match (if has_ctor {
                        match rd_function(b, t) {
                            Ok((c, u)) => Ok((Some(c), u)),
                            Err(e) => Err(e),
                        }
                    } else {
                        Ok((None, t))
                    }) {
                        Ok((constructor, u)) => match rd_u32(b, u) {
                            Ok((nm, v)) => match rd_function_list(b, v, nm as nat) {
                                Ok((methods, w)) => Ok(
                                    (SpecObject { name, fields, constructor, methods }, w),
                                ),
                                Err(e) => Err(e),
                            },
                            Err(e) => Err(e),
                        },
                        Err(e) => Err(e),
                    },
                    Err(e) => Err(e),
                },
                Err(e) => Err(e),
            },
            Err(e) => Err(e),
        },
        Err(e) => Err(e),
    }
}

pub open spec fn rd_item(b: Seq<u8>, p: int) -> Result<(SpecItem, int), FormatError>
    decreases b.len() - p, 0nat,
{
    match rd_u8(b, p) {
        Err(e) => Err(e),
        Ok((tag, p1)) => if tag == 0 {
            match rd_stmt(b, p1) {
                Ok((s, q)) => Ok((SpecItem::Statement(s), q)),
                Err(e) => Err(e),
            }
        } else if tag == 1 {
            match rd_function(b, p1) {
                Ok((f, q)) => Ok((SpecItem::Function(f), q)),
                Err(e) => Err(e),
            }
        } else if tag == 2 {
            match rd_object(b, p1) {
                Ok((o, q)) => Ok((SpecItem::Object(o), q)),
                Err(e) => Err(e),
            }
        } else if tag == 3 {
            match rd_string(b, p1) {
                Ok((name, q)) => if advanced(b, p, q) {
                    match rd_items(b, q) {
                        Ok((items, r)) => Ok((SpecItem::Namespace(SpecNamespace { name, items }), r)),
                        Err(e) => Err(e),
                    }
                } else {
                    Err(FormatError::UnexpectedEnd)
                },
                Err(e) => Err(e),
            }
        } else if tag == 4 {
            match rd_stmts(b, p1) {
                Ok((body, q)) => Ok((SpecItem::Entry(body), q)),
                Err(e) => Err(e),
            }
        } else {
            Err(FormatError::UnknownItemTag(tag))
        },
    }
}

/// A count, then that many items.
pub open spec fn rd_items(b: Seq<u8>, p: int) -> Result<(Seq<SpecItem>, int), FormatError>
    decreases b.len() - p, 0nat,
{
    match rd_u32(b, p) {
        Ok((n, q)) => rd_item_list(b, q, n as nat),
        Err(e) => Err(e),
    }
}

pub open spec fn rd_item_list(b: Seq<u8>, p: int, n: nat) -> Result<(Seq<SpecItem>, int), FormatError>
    decreases b.len() - p, n,
{
    if n == 0 {
        Ok((Seq::empty(), p))
    } else {
        match rd_item(b, p) {
            Ok((x, q)) => if advanced(b, p, q) {
                match rd_item_list(b, q, (n - 1) as nat) {
                    Ok((xs, r)) => Ok((seq![x] + xs, r)),
                    Err(e) => Err(e),
                }
            } else {
                Err(FormatError::UnexpectedEnd)
            },
            Err(e) => Err(e),
        }
    }
}

/// What the reader makes of a whole byte sequence.
pub open spec fn rd_program(b: Seq<u8>) -> Result<SpecProgram, FormatError> {
    match rd_take(b, 0, 4) {
        Err(e) => Err(e),
        Ok((magic, p)) => if magic != crst_magic() {
            Err(FormatError::InvalidHeader)
        } else {
            match rd_u8(b, p) {
                Err(e) => Err(e),
                Ok((version, q)) => if version != 1 {
                    Err(FormatError::UnsupportedVersion)
                } else {
                    match rd_items(b, q) {
                        Err(e) => Err(e),
                        Ok((items, r)) => if r != b.len() {
                            Err(FormatError::TrailingBytes)
                        } else {
                            Ok(SpecProgram { items })
                        },
                    }
                },
            }
        },
    }
}

pub open spec fn rd_type(b: Seq<u8>, p: int) -> Result<(SpecType, int), FormatError>
    decreases b.len() - p, 0nat,
{
    match rd_u8(b, p) {
        Err(e) => Err(e),
        Ok((tag, p1)) => if tag == 20 {
            match rd_string(b, p1) {
                Ok((v, q)) => Ok((SpecType::Identifier(v), q)),
                Err(e) => Err(e),
            }
        } else if tag == 21 {
            match rd_u64(b, p1) {
                Ok((v, q)) => Ok((SpecType::Integer(v as i64), q)),
                Err(e) => Err(e),
            }
        } else if tag == 22 {
            match rd_u64(b, p1) {
                Ok((v, q)) => Ok((SpecType::Float(v), q)),
                Err(e) => Err(e),
            }
        } else if tag == 23 {
            match rd_string(b, p1) {
                Ok((v, q)) => Ok((SpecType::String(v), q)),
                Err(e) => Err(e),
            }
        } else if tag == 24 {
            match rd_char(b, p1) {
                Ok((c, q)) => Ok((SpecType::Char(c), q)),
                Err(e) => Err(e),
            }
        } else if tag == 25 {
            match rd_flag(b, p1) {
                Ok((v, q)) => Ok((SpecType::Boolean(v), q)),
                Err(e) => Err(e),
            }
        } else if tag == 26 {
            match rd_u32(b, p1) {
                Ok((n, q)) => match rd_token_list(b, q, n as nat) {
                    Ok((ts, r)) => Ok((SpecType::Get(ts), r)),
                    Err(e) => Err(e),
                },
                Err(e) => Err(e),
            }
        } else if tag <= 47 {
            Ok((simple_type_of_tag(tag), p1))
        } else {
            Err(FormatError::UnknownTokenTag(tag))
        },
    }
}

pub open spec fn rd_token(b: Seq<u8>, p: int) -> Result<(SpecToken, int), FormatError>
    decreases b.len() - p, 1nat,
{
    match rd_type(b, p) {
        Ok((t, q)) => match rd_u32(b, q) {
            Ok((line, r)) => match rd_u32(b, r) {
                Ok((column, s)) => match rd_string(b, s) {
                    Ok((file, u)) => Ok(
                        (
                            SpecToken {
                                token_type: t,
                                line: line as usize,
                                column: column as usize,
                                file,
                            },
                            u,
                        ),
                    ),
                    Err(e) => Err(e),
                },
                Err(e) => Err(e),
            },
            Err(e) => Err(e),
        },
        Err(e) => Err(e),
    }
}

pub open spec fn rd_token_list(b: Seq<u8>, p: int, n: nat) -> Result<(Seq<SpecToken>, int), FormatError>
    decreases b.len() - p, n + 2,
{
    if n == 0 {
        Ok((Seq::empty(), p))
    } else {
        match rd_token(b, p) {
            Ok((t, q)) => if advanced(b, p, q) {
                match rd_token_list(b, q, (n - 1) as nat) {
                    Ok((ts, r)) => Ok((seq![t] + ts, r)),
                    Err(e) => Err(e),
                }
            } else {
                Err(FormatError::UnexpectedEnd)
            },
            Err(e) => Err(e),
        }
    }
}

} // verus!
