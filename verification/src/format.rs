//! Writing a program to CRST bytes and reading it back.
use vstd::prelude::*;
use vstd::bytes::{u32_to_le_bytes, u64_to_le_bytes, u32_from_le_bytes, u64_from_le_bytes};
use vstd::utf8::{valid_utf8, decode_utf8, is_scalar};
use crate::ast::{
    AccessOp, BinaryOp, Expr, Field, Function, Item, Namespace, Object, Parameter, Program, Stmt,
    UnaryOp, SpecStmt, SpecItem, SpecExpr, expr_view, exprs_view, stmt_view, stmts_view, item_view,
    items_view, function_view, parameter_view, field_view, object_view, lemma_exprs_view,
    lemma_stmts_view, lemma_items_view,
};
use crate::token::{Token, Type, SpecToken, token_view, tokens_view, type_view, lemma_tokens_view};
use crate::format_spec::{
    le32, le64, ser_flag, ser_string, crst_magic, binary_tag, ser_expr, ser_expr_list, ser_stmt,
    ser_stmt_list, ser_stmts, ser_parameter, ser_parameter_list, ser_function, ser_function_list,
    ser_field, ser_field_list, ser_object, ser_item, ser_item_list, ser_items, ser_program,
    ser_type, ser_token, ser_token_list, FormatError, decimal, format_message, rd_take, rd_u8,
    rd_u32, rd_u64, rd_flag, rd_string, rd_char, rd_expr, rd_expr_list, binary_of_tag, rd_stmt,
    rd_stmts, rd_stmt_list, rd_parameter_list, rd_field_list, rd_function, rd_function_list,
    rd_object, rd_item, rd_items, rd_item_list, rd_program, rd_type, rd_token, rd_token_list,
    simple_type_of_tag,
};

verus! {

broadcast use lemma_exprs_view, lemma_stmts_view, lemma_items_view, lemma_tokens_view;

/// Collects the bytes of a program.
pub(crate) struct ByteWriter {
    pub(crate) bytes: Vec<u8>,
}

proof fn lemma_unfold_list<A>(s: Seq<A>, i: int)
    requires
        0 <= i < s.len(),
    ensures
        s.skip(i)[0] == s[i],
        s.skip(i).drop_first() == s.skip(i + 1),
        s.skip(i).len() > 0,
{
    assert(s.skip(i).drop_first() =~= s.skip(i + 1));
}

proof fn lemma_assoc(a: Seq<u8>, b: Seq<u8>, c: Seq<u8>)
    ensures
        a + b + c == a + (b + c),
{
    assert(a + b + c =~= a + (b + c));
}

impl ByteWriter {
    pub(crate) fn new() -> (w: Self)
        ensures
            w.bytes@ == Seq::<u8>::empty(),
    {
        Self { bytes: Vec::new() }
    }

    pub(crate) fn finish(self) -> (r: Vec<u8>)
        ensures
            r@ == self.bytes@,
    {
        self.bytes
    }

    pub(crate) fn bytes(&mut self, value: &[u8])
        ensures
            final(self).bytes@ == old(self).bytes@ + value@,
    {
        let mut i: usize = 0;
        while i < value.len()
            invariant
                i <= value@.len(),
                self.bytes@ == old(self).bytes@ + value@.subrange(0, i as int),
            decreases value@.len() - i,
        {
            self.bytes.push(value[i]);
            proof {
                assert(value@.subrange(0, i + 1) =~= value@.subrange(0, i as int).push(value@[i as int]));
            }
            i = i + 1;
        }
        proof {
            assert(value@.subrange(0, value@.len() as int) =~= value@);
        }
    }

    pub(crate) fn u8(&mut self, value: u8)
        ensures
            final(self).bytes@ == old(self).bytes@ + seq![value],
    {
        self.bytes.push(value);
        proof {
            assert(self.bytes@ =~= old(self).bytes@ + seq![value]);
        }
    }

    /// A count or position, truncated to 32 bits as the format does.
    pub(crate) fn u32(&mut self, value: usize)
        ensures
            final(self).bytes@ == old(self).bytes@ + le32(value as int),
    {
        let v = u32_to_le_bytes(value as u32);
        self.bytes(v.as_slice());
    }

    pub(crate) fn i64(&mut self, value: i64)
        ensures
            final(self).bytes@ == old(self).bytes@ + le64(value as u64),
    {
        let v = u64_to_le_bytes(value as u64);
        self.bytes(v.as_slice());
    }

    /// A floating-point value, given by its IEEE-754 bit pattern.
    pub(crate) fn float(&mut self, bits: u64)
        ensures
            final(self).bytes@ == old(self).bytes@ + le64(bits),
    {
        let v = u64_to_le_bytes(bits);
        self.bytes(v.as_slice());
    }

    pub(crate) fn string(&mut self, value: &str)
        ensures
            final(self).bytes@ == old(self).bytes@ + ser_string(value@),
    {
        let raw = value.as_bytes();
        self.u32(raw.len());
        self.bytes(raw);
        proof {
            lemma_assoc(old(self).bytes@, le32(raw@.len() as int), raw@);
        }
    }

    pub(crate) fn flag(&mut self, value: bool)
        ensures
            final(self).bytes@ == old(self).bytes@ + ser_flag(value),
    {
        self.u8(if value { 1 } else { 0 });
    }

    pub(crate) fn items(&mut self, items: &Vec<Item>)
        ensures
            final(self).bytes@ == old(self).bytes@ + ser_items(items_view(items@)),
        decreases items, 1nat,
    {
        let ghost v = items_view(items@);
        self.u32(items.len());
        proof {
            assert(v.skip(0) =~= v);
            lemma_assoc(old(self).bytes@, le32(v.len() as int), ser_item_list(v));
        }
        let mut i: usize = 0;
        while i < items.len()
            invariant
                i <= items@.len(),
                v == items_view(items@),
                v.len() == items@.len(),
                self.bytes@ + ser_item_list(v.skip(i as int)) == old(self).bytes@ + ser_items(v),
            decreases items@.len() - i,
        {
            proof {
                lemma_unfold_list(v, i as int);
            }
            let ghost before = self.bytes@;
            self.item(&items[i]);
            proof {
                lemma_assoc(before, ser_item(v[i as int]), ser_item_list(v.skip(i + 1)));
            }
            i = i + 1;
        }
        proof {
            assert(v.skip(v.len() as int) =~= Seq::<SpecItem>::empty());
            assert(self.bytes@ + Seq::<u8>::empty() =~= self.bytes@);
            lemma_assoc(old(self).bytes@, le32(v.len() as int), ser_item_list(v));
        }
    }

    pub(crate) fn item(&mut self, item: &Item)
        ensures
            final(self).bytes@ == old(self).bytes@ + ser_item(item_view(*item)),
        decreases item, 0nat,
    {
        let ghost start = self.bytes@;
        match item {
            Item::Statement(statement) => {
                self.u8(0);
                self.statement(statement);
                proof { lemma_assoc(start, seq![0u8], ser_stmt(stmt_view(*statement))); }
            },
            Item::Function(function) => {
                self.u8(1);
                self.function(function);
                proof { lemma_assoc(start, seq![1u8], ser_function(function_view(*function))); }
            },
            Item::Object(object) => {
                self.u8(2);
                self.object(object);
                proof { lemma_assoc(start, seq![2u8], ser_object(object_view(*object))); }
            },
            Item::Namespace(namespace) => {
                self.u8(3);
                self.string(namespace.name.as_str());
                let ghost mid = self.bytes@;
                self.items(&namespace.items);
                proof {
                    lemma_assoc(start, seq![3u8], ser_string(namespace.name@));
                    lemma_assoc(start, seq![3u8] + ser_string(namespace.name@), ser_items(items_view(namespace.items@)));
                }
            },
            Item::Entry(statements) => {
                self.u8(4);
                self.statements(statements);
                proof { lemma_assoc(start, seq![4u8], ser_stmts(stmts_view(statements@))); }
            },
        }
    }

    fn object(&mut self, object: &crate::ast::Object)
        ensures
            final(self).bytes@ == old(self).bytes@ + ser_object(object_view(*object)),
    {
        let ghost o = object_view(*object);
        let ghost start = self.bytes@;
        self.string(object.name.as_str());
        self.u32(object.fields.len());
        let ghost after_count = self.bytes@;
        proof {
            assert(o.fields.skip(0) =~= o.fields);
        }
        let mut i: usize = 0;
        while i < object.fields.len()
            invariant
                i <= object.fields@.len(),
                o == object_view(*object),
                o.fields.len() == object.fields@.len(),
                self.bytes@ + ser_field_list(o.fields.skip(i as int)) == after_count + ser_field_list(o.fields),
            decreases object.fields@.len() - i,
        {
            proof {
                lemma_unfold_list(o.fields, i as int);
            }
            let ghost before = self.bytes@;
            let field = &object.fields[i];
            self.string(field.name.as_str());
            self.flag(field.mutable);
            self.flag(field.private);
            proof {
                assert(o.fields[i as int] == field_view(*field));
                assert(self.bytes@ == before + ser_field(field_view(*field))) by {
                    lemma_assoc(before, ser_string(field.name@), ser_flag(field.mutable));
                    lemma_assoc(before, ser_string(field.name@) + ser_flag(field.mutable), ser_flag(field.private));
                }
                lemma_assoc(before, ser_field(o.fields[i as int]), ser_field_list(o.fields.skip(i + 1)));
            }
            i = i + 1;
        }
        proof {
            assert(o.fields.skip(o.fields.len() as int) =~= Seq::<crate::ast::SpecField>::empty());
            assert(self.bytes@ + Seq::<u8>::empty() =~= self.bytes@);
        }
        let ghost after_fields = self.bytes@;
        match &object.constructor {
            Some(constructor) => {
                self.u8(1);
                self.function(constructor);
                proof { lemma_assoc(after_fields, seq![1u8], ser_function(function_view(*constructor))); }
            },
            None => self.u8(0),
        }
        let ghost after_ctor = self.bytes@;
        self.u32(object.methods.len());
        let ghost after_mcount = self.bytes@;
        proof {
            assert(o.methods.skip(0) =~= o.methods);
        }
        let mut j: usize = 0;
        while j < object.methods.len()
            invariant
                j <= object.methods@.len(),
                o == object_view(*object),
                o.methods.len() == object.methods@.len(),
                self.bytes@ + ser_function_list(o.methods.skip(j as int)) == after_mcount + ser_function_list(o.methods),
            decreases object.methods@.len() - j,
        {
            proof {
                lemma_unfold_list(o.methods, j as int);
            }
            let ghost before = self.bytes@;
            self.function(&object.methods[j]);
            proof {
                assert(o.methods[j as int] == function_view(object.methods@[j as int]));
                lemma_assoc(before, ser_function(o.methods[j as int]), ser_function_list(o.methods.skip(j + 1)));
            }
            j = j + 1;
        }
        proof {
            assert(o.methods.skip(o.methods.len() as int) =~= Seq::<crate::ast::SpecFunction>::empty());
            assert(self.bytes@ + Seq::<u8>::empty() =~= self.bytes@);
            assert(self.bytes@ =~= start + ser_object(o));
        }
    }

    pub(crate) fn function(&mut self, function: &Function)
        ensures
            final(self).bytes@ == old(self).bytes@ + ser_function(function_view(*function)),
    {
        let ghost f = function_view(*function);
        let ghost start = self.bytes@;
        self.string(function.name.as_str());
        self.flag(function.private);
        self.u32(function.parameters.len());
        let ghost after_count = self.bytes@;
        proof {
            assert(f.parameters.skip(0) =~= f.parameters);
        }
        let mut i: usize = 0;
        while i < function.parameters.len()
            invariant
                i <= function.parameters@.len(),
                f == function_view(*function),
                f.parameters.len() == function.parameters@.len(),
                self.bytes@ + ser_parameter_list(f.parameters.skip(i as int)) == after_count + ser_parameter_list(f.parameters),
            decreases function.parameters@.len() - i,
        {
            proof {
                lemma_unfold_list(f.parameters, i as int);
            }
            let ghost before = self.bytes@;
            let parameter = &function.parameters[i];
            self.string(parameter.name.as_str());
            self.flag(parameter.mutable);
            self.flag(parameter.reference);
            proof {
                assert(f.parameters[i as int] == parameter_view(*parameter));
                assert(self.bytes@ == before + ser_parameter(parameter_view(*parameter))) by {
                    lemma_assoc(before, ser_string(parameter.name@), ser_flag(parameter.mutable));
                    lemma_assoc(before, ser_string(parameter.name@) + ser_flag(parameter.mutable), ser_flag(parameter.reference));
                }
                lemma_assoc(before, ser_parameter(f.parameters[i as int]), ser_parameter_list(f.parameters.skip(i + 1)));
            }
            i = i + 1;
        }
        proof {
            assert(f.parameters.skip(f.parameters.len() as int) =~= Seq::<crate::ast::SpecParameter>::empty());
            assert(self.bytes@ + Seq::<u8>::empty() =~= self.bytes@);
        }
        self.statements(&function.body);
        proof {
            assert(self.bytes@ =~= start + ser_function(f));
        }
    }

    pub(crate) fn statements(&mut self, statements: &Vec<Stmt>)
        ensures
            final(self).bytes@ == old(self).bytes@ + ser_stmts(stmts_view(statements@)),
        decreases statements, 1nat,
    {
        let ghost v = stmts_view(statements@);
        self.u32(statements.len());
        proof {
            assert(v.skip(0) =~= v);
            lemma_assoc(old(self).bytes@, le32(v.len() as int), ser_stmt_list(v));
        }
        let mut i: usize = 0;
        while i < statements.len()
            invariant
                i <= statements@.len(),
                v == stmts_view(statements@),
                v.len() == statements@.len(),
                self.bytes@ + ser_stmt_list(v.skip(i as int)) == old(self).bytes@ + ser_stmts(v),
            decreases statements@.len() - i,
        {
            proof {
                lemma_unfold_list(v, i as int);
            }
            let ghost before = self.bytes@;
            self.statement(&statements[i]);
            proof {
                lemma_assoc(before, ser_stmt(v[i as int]), ser_stmt_list(v.skip(i + 1)));
            }
            i = i + 1;
        }
        proof {
            assert(v.skip(v.len() as int) =~= Seq::<SpecStmt>::empty());
            assert(self.bytes@ + Seq::<u8>::empty() =~= self.bytes@);
            lemma_assoc(old(self).bytes@, le32(v.len() as int), ser_stmt_list(v));
        }
    }

    pub(crate) fn statement(&mut self, statement: &Stmt)
        ensures
            final(self).bytes@ == old(self).bytes@ + ser_stmt(stmt_view(*statement)),
        decreases statement, 0nat,
    {
        let ghost start = self.bytes@;
        match statement {
            Stmt::Let { mutable, name, value } => {
                self.u8(0);
                self.flag(*mutable);
                self.string(name.as_str());
                self.expression(value);
            },
            Stmt::Assign { target, value } => {
                self.u8(1);
                self.expression(target);
                self.expression(value);
            },
            Stmt::Expr(expression) => {
                self.u8(2);
                self.expression(expression);
            },
            Stmt::If { condition, body, else_body } => {
                self.u8(3);
                self.expression(condition);
                self.statements(body);
                let ghost mid = self.bytes@;
                match else_body {
                    Some(statements) => {
                        self.u8(1);
                        self.statements(statements);
                        proof { lemma_assoc(mid, seq![1u8], ser_stmts(stmts_view(statements@))); }
                    },
                    None => self.u8(0),
                }
            },
            Stmt::While { condition, body } => {
                self.u8(4);
                self.expression(condition);
                self.statements(body);
            },
            Stmt::Break => self.u8(5),
            Stmt::Continue => self.u8(6),
            Stmt::Return(expression) => {
                self.u8(7);
                let ghost mid = self.bytes@;
                match expression {
                    Some(expression) => {
                        self.u8(1);
                        self.expression(expression);
                        proof { lemma_assoc(mid, seq![1u8], ser_expr(expr_view(*expression))); }
                    },
                    None => self.u8(0),
                }
            },
            Stmt::Block(statements) => {
                self.u8(8);
                self.statements(statements);
            },
        }
        proof {
            assert(self.bytes@ =~= start + ser_stmt(stmt_view(*statement)));
        }
    }

    pub(crate) fn expression(&mut self, expression: &Expr)
        ensures
            final(self).bytes@ == old(self).bytes@ + ser_expr(expr_view(*expression)),
        decreases expression,
    {
        let ghost start = self.bytes@;
        match expression {
            Expr::Integer(value) => {
                self.u8(0);
                self.i64(*value);
            },
            Expr::Float(value) => {
                self.u8(1);
                self.float(*value);
            },
            Expr::String(value) => {
                self.u8(2);
                self.string(value.as_str());
            },
            Expr::Char(value) => {
                self.u8(3);
                self.u32(char_code(*value));
            },
            Expr::Boolean(value) => {
                self.u8(4);
                self.flag(*value);
            },
            Expr::Name(value) => {
                self.u8(5);
                self.string(value.as_str());
            },
            Expr::Unary { operator, value } => {
                self.u8(6);
                self.u8(
                    match operator {
                        UnaryOp::Not => 0,
                        UnaryOp::Negate => 1,
                    },
                );
                self.expression(value);
            },
            Expr::Binary { left, operator, right } => {
                self.u8(7);
                self.u8(binary_operator_tag(*operator));
                self.expression(left);
                self.expression(right);
            },
            Expr::Call { callee, arguments } => {
                self.u8(8);
                self.expression(callee);
                let ghost mid = self.bytes@;
                self.expressions(arguments);
                proof {
                    lemma_assoc(mid, le32(arguments@.len() as int), ser_expr_list(exprs_view(arguments@)));
                }
            },
            Expr::Access { value, operator, member } => {
                self.u8(9);
                self.u8(
                    match operator {
                        AccessOp::Namespace => 0,
                        AccessOp::Member => 1,
                    },
                );
                self.expression(value);
                self.string(member.as_str());
            },
            Expr::Group(value) => {
                self.u8(10);
                self.expression(value);
            },
        }
        proof {
            assert(self.bytes@ =~= start + ser_expr(expr_view(*expression)));
        }
    }

    /// A count, then the expressions.
    pub(crate) fn expressions(&mut self, arguments: &Vec<Expr>)
        ensures
            final(self).bytes@ == old(self).bytes@ + (le32(arguments@.len() as int) + ser_expr_list(exprs_view(arguments@))),
        decreases arguments,
    {
        let ghost v = exprs_view(arguments@);
        self.u32(arguments.len());
        let ghost after_count = self.bytes@;
        proof {
            assert(v.skip(0) =~= v);
        }
        let mut i: usize = 0;
        while i < arguments.len()
            invariant
                i <= arguments@.len(),
                v == exprs_view(arguments@),
                v.len() == arguments@.len(),
                self.bytes@ + ser_expr_list(v.skip(i as int)) == after_count + ser_expr_list(v),
            decreases arguments@.len() - i,
        {
            proof {
                lemma_unfold_list(v, i as int);
            }
            let ghost before = self.bytes@;
            self.expression(&arguments[i]);
            proof {
                lemma_assoc(before, ser_expr(v[i as int]), ser_expr_list(v.skip(i + 1)));
            }
            i = i + 1;
        }
        proof {
            assert(v.skip(v.len() as int) =~= Seq::<SpecExpr>::empty());
            assert(self.bytes@ + Seq::<u8>::empty() =~= self.bytes@);
            lemma_assoc(old(self).bytes@, le32(v.len() as int), ser_expr_list(v));
        }
    }

    /// A count, then the tokens.
    pub(crate) fn tokens(&mut self, tokens: &Vec<Token>)
        ensures
            final(self).bytes@ == old(self).bytes@ + (le32(tokens@.len() as int) + ser_token_list(tokens_view(tokens@))),
        decreases tokens,
    {
        let ghost v = tokens_view(tokens@);
        self.u32(tokens.len());
        let ghost after_count = self.bytes@;
        proof {
            assert(v.skip(0) =~= v);
        }
        let mut i: usize = 0;
        while i < tokens.len()
            invariant
                i <= tokens@.len(),
                v == tokens_view(tokens@),
                v.len() == tokens@.len(),
                self.bytes@ + ser_token_list(v.skip(i as int)) == after_count + ser_token_list(v),
            decreases tokens@.len() - i,
        {
            proof {
                lemma_unfold_list(v, i as int);
            }
            let ghost before = self.bytes@;
            self.token(&tokens[i]);
            proof {
                lemma_assoc(before, ser_token(v[i as int]), ser_token_list(v.skip(i + 1)));
            }
            i = i + 1;
        }
        proof {
            assert(v.skip(v.len() as int) =~= Seq::<crate::token::SpecToken>::empty());
            assert(self.bytes@ + Seq::<u8>::empty() =~= self.bytes@);
            lemma_assoc(old(self).bytes@, le32(v.len() as int), ser_token_list(v));
        }
    }

    pub(crate) fn token(&mut self, token: &Token)
        ensures
            final(self).bytes@ == old(self).bytes@ + ser_token(token_view(*token)),
        decreases token,
    {
        let ghost start = self.bytes@;
        self.type_tag(&token.token_type);
        self.u32(token.line);
        self.u32(token.column);
        self.string(token.file.as_str());
        proof {
            assert(self.bytes@ =~= start + ser_token(token_view(*token)));
        }
    }

    pub(crate) fn type_tag(&mut self, token_type: &Type)
        ensures
            final(self).bytes@ == old(self).bytes@ + ser_type(type_view(*token_type)),
        decreases token_type,
    {
        let ghost start = self.bytes@;
        match token_type {
            Type::Identifier(value) => {
                self.u8(20);
                self.string(value.as_str());
            },
            Type::Integer(value) => {
                self.u8(21);
                self.i64(*value);
            },
            Type::Float(value) => {
                self.u8(22);
                self.float(*value);
            },
            Type::String(value) => {
                self.u8(23);
                self.string(value.as_str());
            },
            Type::Char(value) => {
                self.u8(24);
                self.u32(char_code(*value));
            },
            Type::Boolean(value) => {
                self.u8(25);
                self.flag(*value);
            },
            Type::Get(tokens) => {
                self.u8(26);
                self.tokens(tokens);
                proof {
                    lemma_assoc(start + seq![26u8], le32(tokens@.len() as int), ser_token_list(tokens_view(tokens@)));
                }
            },
            _ => {
                self.u8(simple_type_tag(token_type));
            },
        }
        proof {
            assert(self.bytes@ =~= start + ser_type(type_view(*token_type)));
        }
    }
}

/// The scalar value of a character.
fn char_code(c: char) -> (r: usize)
    ensures
        r == c as u32,
{
    (c as u32) as usize
}

fn binary_operator_tag(op: BinaryOp) -> (r: u8)
    ensures
        r == binary_tag(op),
{
    match op {
        BinaryOp::Add => 0,
        BinaryOp::Subtract => 1,
        BinaryOp::Multiply => 2,
        BinaryOp::Divide => 3,
        BinaryOp::Remainder => 4,
        BinaryOp::Exponent => 5,
        BinaryOp::Equal => 6,
        BinaryOp::NotEqual => 7,
        BinaryOp::Less => 8,
        BinaryOp::LessOrEqual => 9,
        BinaryOp::Greater => 10,
        BinaryOp::GreaterOrEqual => 11,
        BinaryOp::And => 12,
        BinaryOp::Or => 13,
    }
}

/// The tag of a token kind (payloads aside).
pub(crate) fn simple_type_tag(t: &Type) -> (r: u8)
    ensures
        r == crate::format_spec::type_tag(type_view(*t)),
{
    match t {
        Type::EOL => 0,
        Type::EOF => 1,
        Type::Mut => 2,
        Type::Immut => 3,
        Type::Ref => 4,
        Type::Func => 5,
        Type::Private => 6,
        Type::Colon => 7,
        Type::DoubleColon => 8,
        Type::ColonArrow => 9,
        Type::If => 10,
        Type::Else => 11,
        Type::While => 12,
        Type::Break => 13,
        Type::Continue => 14,
        Type::Ret => 15,
        Type::Object => 16,
        Type::Namespace => 17,
        Type::Entry => 18,
        Type::Constructor => 19,
        Type::Identifier(_) => 20,
        Type::Integer(_) => 21,
        Type::Float(_) => 22,
        Type::String(_) => 23,
        Type::Char(_) => 24,
        Type::Boolean(_) => 25,
        Type::Get(_) => 26,
        Type::LParen => 27,
        Type::RParen => 28,
        Type::LBrace => 29,
        Type::RBrace => 30,
        Type::Comma => 31,
        Type::Equals => 32,
        Type::DoubleEquals => 33,
        Type::BangEquals => 34,
        Type::LessThan => 35,
        Type::GreaterThan => 36,
        Type::LessThanOrEqual => 37,
        Type::GreaterThanOrEqual => 38,
        Type::Plus => 39,
        Type::Minus => 40,
        Type::Star => 41,
        Type::Slash => 42,
        Type::Percent => 43,
        Type::Exponent => 44,
        Type::Bang => 45,
        Type::DoubleAmpersand => 46,
        Type::DoublePipe => 47,
    }
}

impl Program {
    /// The CRST bytes of this program: the magic `CRST`, format version 1,
    /// then the items. Counts and string lengths are written in 32 bits.
    pub fn to_bytes(&self) -> (r: Vec<u8>)
        ensures
            r@ == ser_program(self@),
    {
        let mut writer = ByteWriter::new();
        writer.u8(67);
        writer.u8(82);
        writer.u8(83);
        writer.u8(84);
        writer.u8(1);
        writer.items(&self.items);
        let r = writer.finish();
        proof {
            assert(r@ =~= ser_program(self@));
        }
        r
    }
}

/// The reader's outcome agrees with the format: on success it gives the value
/// that the format reads and stands where the format stops; on failure it
/// gives the same error.
pub open spec fn agrees<V>(expected: Result<(V, int), FormatError>, got: Result<V, FormatError>, position: int) -> bool {
    match expected {
        Ok((v, q)) => got == Ok::<V, FormatError>(v) && position == q,
        Err(e) => got == Err::<V, FormatError>(e),
    }
}

pub open spec fn viewed<T: View>(r: Result<T, FormatError>) -> Result<T::V, FormatError> {
    match r {
        Ok(v) => Ok(v@),
        Err(e) => Err(e),
    }
}

pub open spec fn stmts_result(r: Result<Vec<Stmt>, FormatError>) -> Result<Seq<SpecStmt>, FormatError> {
    match r {
        Ok(v) => Ok(stmts_view(v@)),
        Err(e) => Err(e),
    }
}

pub open spec fn items_result(r: Result<Vec<Item>, FormatError>) -> Result<Seq<SpecItem>, FormatError> {
    match r {
        Ok(v) => Ok(items_view(v@)),
        Err(e) => Err(e),
    }
}

/// A list read so far, in front of what the rest of the reading gives.
pub open spec fn prepend<V>(acc: Seq<V>, r: Result<(Seq<V>, int), FormatError>) -> Result<(Seq<V>, int), FormatError> {
    match r {
        Ok((rest, q)) => Ok((acc + rest, q)),
        Err(e) => Err(e),
    }
}

/// `String::from_utf8` on a copy of the bytes: it succeeds exactly when the
/// bytes are valid UTF-8, and the string then holds the characters they encode.
#[verifier::external_body]
fn utf8_string(bytes: &[u8]) -> (r: Option<String>)
    ensures
        r is Some <==> valid_utf8(bytes@),
        r matches Some(s) ==> s@ == decode_utf8(bytes@),
{
    String::from_utf8(bytes.to_vec()).ok()
}

/// `char::from_u32`: the character with the given scalar value, if the value
/// is a Unicode scalar value.
#[verifier::external_body]
fn char_from_scalar(v: u32) -> (r: Option<char>)
    ensures
        r is Some <==> is_scalar(v),
        r matches Some(c) ==> c == v as char,
{
    char::from_u32(v)
}

/// `format!("{prefix}{tag}")`: the prefix followed by the decimal digits of the tag.
#[verifier::external_body]
fn tag_message(prefix: &str, tag: u8) -> (r: String)
    ensures
        r@ == prefix@ + decimal(tag as nat),
{
    format!("{prefix}{tag}")
}

impl FormatError {
    /// The reader's message for this error.
    pub fn message(&self) -> (r: String)
        ensures
            r@ == format_message(*self),
    {
        match self {
            FormatError::InvalidHeader => String::from_str("invalid CRST header"),
            FormatError::UnsupportedVersion => String::from_str("unsupported CRST format version"),
            FormatError::TrailingBytes => String::from_str("trailing bytes after CRST program"),
            FormatError::InvalidLength => String::from_str("invalid byte length"),
            FormatError::UnexpectedEnd => String::from_str("unexpected end of CRST data"),
            FormatError::InvalidUtf8 => String::from_str("invalid UTF-8 string in CRST data"),
            FormatError::InvalidFlag => String::from_str("invalid boolean flag in CRST data"),
            FormatError::InvalidCharacter => String::from_str("invalid character"),
            FormatError::UnknownItemTag(t) => tag_message("unknown item tag ", *t),
            FormatError::UnknownTokenTag(t) => tag_message("unknown token tag ", *t),
            FormatError::UnknownStatementTag(t) => tag_message("unknown statement tag ", *t),
            FormatError::UnknownUnaryOperatorTag(t) => tag_message("unknown unary operator tag ", *t),
            FormatError::UnknownBinaryOperatorTag(t) => tag_message("unknown binary operator tag ", *t),
            FormatError::UnknownAccessOperatorTag(t) => tag_message("unknown access operator tag ", *t),
            FormatError::UnknownExpressionTag(t) => tag_message("unknown expression tag ", *t),
        }
    }
}

/// Reads the values of a CRST byte sequence one after the other.
pub(crate) struct ByteReader<'a> {
    pub(crate) bytes: &'a [u8],
    pub(crate) position: usize,
}

impl<'a> ByteReader<'a> {
    pub(crate) open spec fn wf(&self) -> bool {
        self.position <= self.bytes@.len()
    }

    pub(crate) fn new(bytes: &'a [u8]) -> (r: Self)
        ensures
            r.bytes@ == bytes@,
            r.position == 0,
            r.wf(),
    {
        Self { bytes, position: 0 }
    }

    pub(crate) fn take(&mut self, length: usize) -> (r: Result<&'a [u8], FormatError>)
        requires
            old(self).wf(),
        ensures
            final(self).wf(),
            final(self).bytes@ == old(self).bytes@,
            match rd_take(old(self).bytes@, old(self).position as int, length as int) {
                Ok((s, q)) => r is Ok && r->Ok_0@ == s && final(self).position == q,
                Err(e) => r == Err::<&'a [u8], FormatError>(e) && final(self).position
                    == old(self).position,
            },
    {
        let end = match self.position.checked_add(length) {
            Some(end) => end,
            None => return Err(FormatError::InvalidLength),
        };
        if end > self.bytes.len() {
            return Err(FormatError::UnexpectedEnd);
        }
        let value = vstd::slice::slice_subrange(self.bytes, self.position, end);
        self.position = end;
        Ok(value)
    }

    pub(crate) fn is_empty(&self) -> (r: bool)
        ensures
            r == (self.position == self.bytes@.len()),
    {
        self.position == self.bytes.len()
    }

    pub(crate) fn u8(&mut self) -> (r: Result<u8, FormatError>)
        requires
            old(self).wf(),
        ensures
            final(self).wf(),
            final(self).bytes@ == old(self).bytes@,
            agrees(rd_u8(old(self).bytes@, old(self).position as int), r, final(self).position as int),
    {
        let s = self.take(1)?;
        Ok(s[0])
    }

    pub(crate) fn u32(&mut self) -> (r: Result<usize, FormatError>)
        requires
            old(self).wf(),
        ensures
            final(self).wf(),
            final(self).bytes@ == old(self).bytes@,
            match rd_u32(old(self).bytes@, old(self).position as int) {
                Ok((v, q)) => r == Ok::<usize, FormatError>(v as usize) && final(self).position == q,
                Err(e) => r == Err::<usize, FormatError>(e),
            },
    {
        let s = self.take(4)?;
        Ok(u32_from_le_bytes(s) as usize)
    }

    pub(crate) fn i64(&mut self) -> (r: Result<i64, FormatError>)
        requires
            old(self).wf(),
        ensures
            final(self).wf(),
            final(self).bytes@ == old(self).bytes@,
            match rd_u64(old(self).bytes@, old(self).position as int) {
                Ok((v, q)) => r == Ok::<i64, FormatError>(v as i64) && final(self).position == q,
                Err(e) => r == Err::<i64, FormatError>(e),
            },
    {
        let s = self.take(8)?;
        Ok(u64_from_le_bytes(s) as i64)
    }

    /// A floating-point value, read as its IEEE-754 bit pattern.
    pub(crate) fn float(&mut self) -> (r: Result<u64, FormatError>)
        requires
            old(self).wf(),
        ensures
            final(self).wf(),
            final(self).bytes@ == old(self).bytes@,
            agrees(rd_u64(old(self).bytes@, old(self).position as int), r, final(self).position as int),
    {
        let s = self.take(8)?;
        Ok(u64_from_le_bytes(s))
    }

    pub(crate) fn string(&mut self) -> (r: Result<String, FormatError>)
        requires
            old(self).wf(),
        ensures
            final(self).wf(),
            final(self).bytes@ == old(self).bytes@,
            agrees(rd_string(old(self).bytes@, old(self).position as int), viewed(r), final(self).position as int),
            r is Ok ==> old(self).position < final(self).position,
    {
        let length = self.u32()?;
        let raw = self.take(length)?;
        match utf8_string(raw) {
            Some(s) => Ok(s),
            None => Err(FormatError::InvalidUtf8),
        }
    }

    pub(crate) fn flag(&mut self) -> (r: Result<bool, FormatError>)
        requires
            old(self).wf(),
        ensures
            final(self).wf(),
            final(self).bytes@ == old(self).bytes@,
            agrees(rd_flag(old(self).bytes@, old(self).position as int), r, final(self).position as int),
    {
        match self.u8()? {
            0 => Ok(false),
            1 => Ok(true),
            _ => Err(FormatError::InvalidFlag),
        }
    }

    pub(crate) fn character(&mut self) -> (r: Result<char, FormatError>)
        requires
            old(self).wf(),
        ensures
            final(self).wf(),
            final(self).bytes@ == old(self).bytes@,
            agrees(rd_char(old(self).bytes@, old(self).position as int), r, final(self).position as int),
    {
        let v = self.u32()?;
        match char_from_scalar(v as u32) {
            Some(c) => Ok(c),
            None => Err(FormatError::InvalidCharacter),
        }
    }
}

pub open spec fn exprs_result(r: Result<Vec<Expr>, FormatError>) -> Result<Seq<SpecExpr>, FormatError> {
    match r {
        Ok(v) => Ok(exprs_view(v@)),
        Err(e) => Err(e),
    }
}

pub open spec fn tokens_result(r: Result<Vec<Token>, FormatError>) -> Result<Seq<SpecToken>, FormatError> {
    match r {
        Ok(v) => Ok(tokens_view(v@)),
        Err(e) => Err(e),
    }
}

proof fn lemma_prepend_push<V>(acc: Seq<V>, x: V, r: Result<(Seq<V>, int), FormatError>)
    ensures
        prepend(acc, prepend(seq![x], r)) == prepend(acc.push(x), r),
{
    match r {
        Ok((rest, q)) => {
            assert(acc + (seq![x] + rest) =~= acc.push(x) + rest);
        },
        Err(_) => {},
    }
}

proof fn lemma_prepend_empty<V>(acc: Seq<V>, q: int)
    ensures
        prepend(acc, Ok((Seq::<V>::empty(), q))) == Ok::<(Seq<V>, int), FormatError>((acc, q)),
{
    assert(acc + Seq::<V>::empty() =~= acc);
}

/// The binary operator that a tag stands for.
fn binary_operator(tag: u8) -> (r: Result<BinaryOp, FormatError>)
    ensures
        r == (match binary_of_tag(tag) {
            Some(op) => Ok::<BinaryOp, FormatError>(op),
            None => Err(FormatError::UnknownBinaryOperatorTag(tag)),
        }),
{
    match tag {
        0 => Ok(BinaryOp::Add),
        1 => Ok(BinaryOp::Subtract),
        2 => Ok(BinaryOp::Multiply),
        3 => Ok(BinaryOp::Divide),
        4 => Ok(BinaryOp::Remainder),
        5 => Ok(BinaryOp::Exponent),
        6 => Ok(BinaryOp::Equal),
        7 => Ok(BinaryOp::NotEqual),
        8 => Ok(BinaryOp::Less),
        9 => Ok(BinaryOp::LessOrEqual),
        10 => Ok(BinaryOp::Greater),
        11 => Ok(BinaryOp::GreaterOrEqual),
        12 => Ok(BinaryOp::And),
        13 => Ok(BinaryOp::Or),
        _ => Err(FormatError::UnknownBinaryOperatorTag(tag)),
    }
}

impl<'a> ByteReader<'a> {
    #[verifier::rlimit(60)]
    pub(crate) fn expression(&mut self) -> (r: Result<Expr, FormatError>)
        requires
            old(self).wf(),
        ensures
            final(self).wf(),
            final(self).bytes@ == old(self).bytes@,
            agrees(rd_expr(old(self).bytes@, old(self).position as int), viewed(r), final(self).position as int),
            r is Ok ==> old(self).position < final(self).position,
        decreases old(self).bytes@.len() - old(self).position, 0nat,
    {
        let ghost b = self.bytes@;
        let ghost p = self.position as int;
        let tag = self.u8()?;
        match tag {
            0 => Ok(Expr::Integer(self.i64()?)),
            1 => Ok(Expr::Float(self.float()?)),
            2 => Ok(Expr::String(self.string()?)),
            3 => Ok(Expr::Char(self.character()?)),
            4 => Ok(Expr::Boolean(self.flag()?)),
            5 => Ok(Expr::Name(self.string()?)),
            6 => {
                let operator = match self.u8()? {
                    0 => UnaryOp::Not,
                    1 => UnaryOp::Negate,
                    t => return Err(FormatError::UnknownUnaryOperatorTag(t)),
                };
                let value = self.expression()?;
                Ok(Expr::Unary { operator, value: Box::new(value) })
            },
            7 => {
                let operator = binary_operator(self.u8()?)?;
                let left = self.expression()?;
                let right = self.expression()?;
                Ok(Expr::Binary { left: Box::new(left), operator, right: Box::new(right) })
            },
            8 => {
                let callee = self.expression()?;
                let count = self.u32()?;
                let arguments = self.expression_list(count)?;
                Ok(Expr::Call { callee: Box::new(callee), arguments })
            },
            9 => {
                let operator = match self.u8()? {
                    0 => AccessOp::Namespace,
                    1 => AccessOp::Member,
                    t => return Err(FormatError::UnknownAccessOperatorTag(t)),
                };
                let value = self.expression()?;
                let member = self.string()?;
                Ok(Expr::Access { value: Box::new(value), operator, member })
            },
            10 => {
                let value = self.expression()?;
                Ok(Expr::Group(Box::new(value)))
            },
            _ => Err(FormatError::UnknownExpressionTag(tag)),
        }
    }

    /// `count` expressions one after the other.
    pub(crate) fn expression_list(&mut self, count: usize) -> (r: Result<Vec<Expr>, FormatError>)
        requires
            old(self).wf(),
        ensures
            final(self).wf(),
            final(self).bytes@ == old(self).bytes@,
            agrees(rd_expr_list(old(self).bytes@, old(self).position as int, count as nat), exprs_result(r), final(self).position as int),
            r is Ok ==> old(self).position <= final(self).position,
        decreases old(self).bytes@.len() - old(self).position, 1nat,
    {
        let ghost b = self.bytes@;
        let ghost p0 = self.position as int;
        let mut values: Vec<Expr> = Vec::new();
        let mut i: usize = 0;
        while i < count
            invariant
                self.wf(),
                self.bytes@ == b,
                b == old(self).bytes@,
                p0 == old(self).position,
                i <= count,
                p0 <= self.position,
                rd_expr_list(b, p0, count as nat) == prepend(exprs_view(values@), rd_expr_list(b, self.position as int, (count - i) as nat)),
            decreases count - i,
        {
            let ghost p = self.position as int;
            let ghost before = values@;
            let value = self.expression()?;
            values.push(value);
            proof {
                assert(values@.drop_last() =~= before);
                lemma_prepend_push(exprs_view(before), expr_view(value), rd_expr_list(b, self.position as int, (count - i - 1) as nat));
            }
            i = i + 1;
        }
        proof {
            lemma_prepend_empty(exprs_view(values@), self.position as int);
        }
        Ok(values)
    }
}

impl<'a> ByteReader<'a> {
    #[verifier::rlimit(60)]
    pub(crate) fn statement(&mut self) -> (r: Result<Stmt, FormatError>)
        requires
            old(self).wf(),
        ensures
            final(self).wf(),
            final(self).bytes@ == old(self).bytes@,
            agrees(rd_stmt(old(self).bytes@, old(self).position as int), viewed(r), final(self).position as int),
            r is Ok ==> old(self).position < final(self).position,
        decreases old(self).bytes@.len() - old(self).position, 0nat,
    {
        let tag = self.u8()?;
        match tag {
            0 => {
                let mutable = self.flag()?;
                let name = self.string()?;
                let value = self.expression()?;
                Ok(Stmt::Let { mutable, name, value })
            },
            1 => {
                let target = self.expression()?;
                let value = self.expression()?;
                Ok(Stmt::Assign { target, value })
            },
            2 => Ok(Stmt::Expr(self.expression()?)),
            3 => {
                let condition = self.expression()?;
                let body = self.statements()?;
                let else_body = if self.flag()? {
                    Some(self.statements()?)
                } else {
                    None
                };
                Ok(Stmt::If { condition, body, else_body })
            },
            4 => {
                let condition = self.expression()?;
                let body = self.statements()?;
                Ok(Stmt::While { condition, body })
            },
            5 => Ok(Stmt::Break),
            6 => Ok(Stmt::Continue),
            7 => {
                let value = if self.flag()? {
                    Some(self.expression()?)
                } else {
                    None
                };
                Ok(Stmt::Return(value))
            },
            8 => Ok(Stmt::Block(self.statements()?)),
            _ => Err(FormatError::UnknownStatementTag(tag)),
        }
    }

    /// A count, then that many statements.
    pub(crate) fn statements(&mut self) -> (r: Result<Vec<Stmt>, FormatError>)
        requires
            old(self).wf(),
        ensures
            final(self).wf(),
            final(self).bytes@ == old(self).bytes@,
            agrees(rd_stmts(old(self).bytes@, old(self).position as int), stmts_result(r), final(self).position as int),
            r is Ok ==> old(self).position < final(self).position,
        decreases old(self).bytes@.len() - old(self).position, 2nat,
    {
        let count = self.u32()?;
        self.statement_list(count)
    }

    pub(crate) fn statement_list(&mut self, count: usize) -> (r: Result<Vec<Stmt>, FormatError>)
        requires
            old(self).wf(),
        ensures
            final(self).wf(),
            final(self).bytes@ == old(self).bytes@,
            agrees(rd_stmt_list(old(self).bytes@, old(self).position as int, count as nat), stmts_result(r), final(self).position as int),
            r is Ok ==> old(self).position <= final(self).position,
        decreases old(self).bytes@.len() - old(self).position, 1nat,
    {
        let ghost b = self.bytes@;
        let ghost p0 = self.position as int;
        let mut values: Vec<Stmt> = Vec::new();
        let mut i: usize = 0;
        while i < count
            invariant
                self.wf(),
                self.bytes@ == b,
                b == old(self).bytes@,
                p0 == old(self).position,
                i <= count,
                p0 <= self.position,
                rd_stmt_list(b, p0, count as nat) == prepend(stmts_view(values@), rd_stmt_list(b, self.position as int, (count - i) as nat)),
            decreases count - i,
        {
            let ghost before = values@;
            let value = self.statement()?;
            values.push(value);
            proof {
                assert(values@.drop_last() =~= before);
                lemma_prepend_push(stmts_view(before), stmt_view(value), rd_stmt_list(b, self.position as int, (count - i - 1) as nat));
            }
            i = i + 1;
        }
        proof {
            lemma_prepend_empty(stmts_view(values@), self.position as int);
        }
        Ok(values)
    }

    pub(crate) fn function(&mut self) -> (r: Result<Function, FormatError>)
        requires
            old(self).wf(),
        ensures
            final(self).wf(),
            final(self).bytes@ == old(self).bytes@,
            agrees(rd_function(old(self).bytes@, old(self).position as int), viewed(r), final(self).position as int),
            r is Ok ==> old(self).position < final(self).position,
    {
        let name = self.string()?;
        let private = self.flag()?;
        let count = self.u32()?;
        let parameters = self.parameter_list(count)?;
        let body = self.statements()?;
        Ok(Function { name, private, parameters, body })
    }

    fn parameter_list(&mut self, count: usize) -> (r: Result<Vec<Parameter>, FormatError>)
        requires
            old(self).wf(),
        ensures
            final(self).wf(),
            final(self).bytes@ == old(self).bytes@,
            agrees(
                rd_parameter_list(old(self).bytes@, old(self).position as int, count as nat),
                (match r {
                    Ok(v) => Ok(v@.map_values(|x: Parameter| parameter_view(x))),
                    Err(e) => Err(e),
                }),
                final(self).position as int,
            ),
            r is Ok ==> old(self).position <= final(self).position,
    {
        let ghost b = self.bytes@;
        let ghost p0 = self.position as int;
        let mut values: Vec<Parameter> = Vec::new();
        let mut i: usize = 0;
        while i < count
            invariant
                self.wf(),
                self.bytes@ == b,
                b == old(self).bytes@,
                p0 == old(self).position,
                i <= count,
                p0 <= self.position,
                rd_parameter_list(b, p0, count as nat) == prepend(
                    values@.map_values(|x: Parameter| parameter_view(x)),
                    rd_parameter_list(b, self.position as int, (count - i) as nat),
                ),
            decreases count - i,
        {
            let ghost before = values@;
            let value = Parameter { name: self.string()?, mutable: self.flag()?, reference: self.flag()? };
            values.push(value);
            proof {
                assert(values@.map_values(|x: Parameter| parameter_view(x)) =~= before.map_values(|x: Parameter| parameter_view(x)).push(parameter_view(value)));
                lemma_prepend_push(before.map_values(|x: Parameter| parameter_view(x)), parameter_view(value), rd_parameter_list(b, self.position as int, (count - i - 1) as nat));
            }
            i = i + 1;
        }
        proof {
            lemma_prepend_empty(values@.map_values(|x: Parameter| parameter_view(x)), self.position as int);
        }
        Ok(values)
    }

    fn field_list(&mut self, count: usize) -> (r: Result<Vec<Field>, FormatError>)
        requires
            old(self).wf(),
        ensures
            final(self).wf(),
            final(self).bytes@ == old(self).bytes@,
            agrees(
                rd_field_list(old(self).bytes@, old(self).position as int, count as nat),
                (match r {
                    Ok(v) => Ok(v@.map_values(|x: Field| field_view(x))),
                    Err(e) => Err(e),
                }),
                final(self).position as int,
            ),
            r is Ok ==> old(self).position <= final(self).position,
    {
        let ghost b = self.bytes@;
        let ghost p0 = self.position as int;
        let mut values: Vec<Field> = Vec::new();
        let mut i: usize = 0;
        while i < count
            invariant
                self.wf(),
                self.bytes@ == b,
                b == old(self).bytes@,
                p0 == old(self).position,
                i <= count,
                p0 <= self.position,
                rd_field_list(b, p0, count as nat) == prepend(
                    values@.map_values(|x: Field| field_view(x)),
                    rd_field_list(b, self.position as int, (count - i) as nat),
                ),
            decreases count - i,
        {
            let ghost before = values@;
            let value = Field { name: self.string()?, mutable: self.flag()?, private: self.flag()? };
            values.push(value);
            proof {
                assert(values@.map_values(|x: Field| field_view(x)) =~= before.map_values(|x: Field| field_view(x)).push(field_view(value)));
                lemma_prepend_push(before.map_values(|x: Field| field_view(x)), field_view(value), rd_field_list(b, self.position as int, (count - i - 1) as nat));
            }
            i = i + 1;
        }
        proof {
            lemma_prepend_empty(values@.map_values(|x: Field| field_view(x)), self.position as int);
        }
        Ok(values)
    }

    fn function_list(&mut self, count: usize) -> (r: Result<Vec<Function>, FormatError>)
        requires
            old(self).wf(),
        ensures
            final(self).wf(),
            final(self).bytes@ == old(self).bytes@,
            agrees(
                rd_function_list(old(self).bytes@, old(self).position as int, count as nat),
                (match r {
                    Ok(v) => Ok(v@.map_values(|x: Function| function_view(x))),
                    Err(e) => Err(e),
                }),
                final(self).position as int,
            ),
            r is Ok ==> old(self).position <= final(self).position,
    {
        let ghost b = self.bytes@;
        let ghost p0 = self.position as int;
        let mut values: Vec<Function> = Vec::new();
        let mut i: usize = 0;
        while i < count
            invariant
                self.wf(),
                self.bytes@ == b,
                b == old(self).bytes@,
                p0 == old(self).position,
                i <= count,
                p0 <= self.position,
                rd_function_list(b, p0, count as nat) == prepend(
                    values@.map_values(|x: Function| function_view(x)),
                    rd_function_list(b, self.position as int, (count - i) as nat),
                ),
            decreases count - i,
        {
            let ghost before = values@;
            let value = self.function()?;
            values.push(value);
            proof {
                assert(values@.map_values(|x: Function| function_view(x)) =~= before.map_values(|x: Function| function_view(x)).push(function_view(value)));
                lemma_prepend_push(before.map_values(|x: Function| function_view(x)), function_view(value), rd_function_list(b, self.position as int, (count - i - 1) as nat));
            }
            i = i + 1;
        }
        proof {
            lemma_prepend_empty(values@.map_values(|x: Function| function_view(x)), self.position as int);
        }
        Ok(values)
    }

    fn object(&mut self) -> (r: Result<Object, FormatError>)
        requires
            old(self).wf(),
        ensures
            final(self).wf(),
            final(self).bytes@ == old(self).bytes@,
            agrees(rd_object(old(self).bytes@, old(self).position as int), viewed(r), final(self).position as int),
            r is Ok ==> old(self).position < final(self).position,
    {
        let name = self.string()?;
        let field_count = self.u32()?;
        let fields = self.field_list(field_count)?;
        let constructor = if self.flag()? {
            Some(self.function()?)
        } else {
            None
        };
        let method_count = self.u32()?;
        let methods = self.function_list(method_count)?;
        Ok(Object { name, fields, constructor, methods })
    }

    #[verifier::rlimit(40)]
    pub(crate) fn item(&mut self) -> (r: Result<Item, FormatError>)
        requires
            old(self).wf(),
        ensures
            final(self).wf(),
            final(self).bytes@ == old(self).bytes@,
            agrees(rd_item(old(self).bytes@, old(self).position as int), viewed(r), final(self).position as int),
            r is Ok ==> old(self).position < final(self).position,
        decreases old(self).bytes@.len() - old(self).position, 0nat,
    {
        let tag = self.u8()?;
        match tag {
            0 => Ok(Item::Statement(self.statement()?)),
            1 => Ok(Item::Function(self.function()?)),
            2 => Ok(Item::Object(self.object()?)),
            3 => {
                let name = self.string()?;
                let items = self.items()?;
                Ok(Item::Namespace(Namespace { name, items }))
            },
            4 => Ok(Item::Entry(self.statements()?)),
            _ => Err(FormatError::UnknownItemTag(tag)),
        }
    }

    /// A count, then that many items.
    pub(crate) fn items(&mut self) -> (r: Result<Vec<Item>, FormatError>)
        requires
            old(self).wf(),
        ensures
            final(self).wf(),
            final(self).bytes@ == old(self).bytes@,
            agrees(rd_items(old(self).bytes@, old(self).position as int), items_result(r), final(self).position as int),
            r is Ok ==> old(self).position < final(self).position,
        decreases old(self).bytes@.len() - old(self).position, 2nat,
    {
        let count = self.u32()?;
        self.item_list(count)
    }

    pub(crate) fn item_list(&mut self, count: usize) -> (r: Result<Vec<Item>, FormatError>)
        requires
            old(self).wf(),
        ensures
            final(self).wf(),
            final(self).bytes@ == old(self).bytes@,
            agrees(rd_item_list(old(self).bytes@, old(self).position as int, count as nat), items_result(r), final(self).position as int),
            r is Ok ==> old(self).position <= final(self).position,
        decreases old(self).bytes@.len() - old(self).position, 1nat,
    {
        let ghost b = self.bytes@;
        let ghost p0 = self.position as int;
        let mut values: Vec<Item> = Vec::new();
        let mut i: usize = 0;
        while i < count
            invariant
                self.wf(),
                self.bytes@ == b,
                b == old(self).bytes@,
                p0 == old(self).position,
                i <= count,
                p0 <= self.position,
                rd_item_list(b, p0, count as nat) == prepend(items_view(values@), rd_item_list(b, self.position as int, (count - i) as nat)),
            decreases count - i,
        {
            let ghost before = values@;
            let value = self.item()?;
            values.push(value);
            proof {
                assert(values@.drop_last() =~= before);
                lemma_prepend_push(items_view(before), item_view(value), rd_item_list(b, self.position as int, (count - i - 1) as nat));
            }
            i = i + 1;
        }
        proof {
            lemma_prepend_empty(items_view(values@), self.position as int);
        }
        Ok(values)
    }

    pub(crate) fn token(&mut self) -> (r: Result<Token, FormatError>)
        requires
            old(self).wf(),
        ensures
            final(self).wf(),
            final(self).bytes@ == old(self).bytes@,
            agrees(rd_token(old(self).bytes@, old(self).position as int), viewed(r), final(self).position as int),
            r is Ok ==> old(self).position < final(self).position,
        decreases old(self).bytes@.len() - old(self).position, 2nat,
    {
        let token_type = self.token_type()?;
        let line = self.u32()?;
        let column = self.u32()?;
        let file = self.string()?;
        Ok(Token { token_type, line, column, file })
    }

    #[verifier::rlimit(60)]
    pub(crate) fn token_type(&mut self) -> (r: Result<Type, FormatError>)
        requires
            old(self).wf(),
        ensures
            final(self).wf(),
            final(self).bytes@ == old(self).bytes@,
            agrees(rd_type(old(self).bytes@, old(self).position as int), viewed(r), final(self).position as int),
            r is Ok ==> old(self).position < final(self).position,
        decreases old(self).bytes@.len() - old(self).position, 0nat,
    {
        let tag = self.u8()?;
        if tag == 20 {
            Ok(Type::Identifier(self.string()?))
        } else if tag == 21 {
            Ok(Type::Integer(self.i64()?))
        } else if tag == 22 {
            Ok(Type::Float(self.float()?))
        } else if tag == 23 {
            Ok(Type::String(self.string()?))
        } else if tag == 24 {
            Ok(Type::Char(self.character()?))
        } else if tag == 25 {
            Ok(Type::Boolean(self.flag()?))
        } else if tag == 26 {
            let count = self.u32()?;
            Ok(Type::Get(self.token_list(count)?))
        } else if tag <= 47 {
            Ok(simple_type_of(tag))
        } else {
            Err(FormatError::UnknownTokenTag(tag))
        }
    }

    pub(crate) fn token_list(&mut self, count: usize) -> (r: Result<Vec<Token>, FormatError>)
        requires
            old(self).wf(),
        ensures
            final(self).wf(),
            final(self).bytes@ == old(self).bytes@,
            agrees(rd_token_list(old(self).bytes@, old(self).position as int, count as nat), tokens_result(r), final(self).position as int),
            r is Ok ==> old(self).position <= final(self).position,
        decreases old(self).bytes@.len() - old(self).position, 3nat,
    {
        let ghost b = self.bytes@;
        let ghost p0 = self.position as int;
        let mut values: Vec<Token> = Vec::new();
        let mut i: usize = 0;
        while i < count
            invariant
                self.wf(),
                self.bytes@ == b,
                b == old(self).bytes@,
                p0 == old(self).position,
                i <= count,
                p0 <= self.position,
                rd_token_list(b, p0, count as nat) == prepend(tokens_view(values@), rd_token_list(b, self.position as int, (count - i) as nat)),
            decreases count - i,
        {
            let ghost before = values@;
            let value = self.token()?;
            values.push(value);
            proof {
                assert(values@.drop_last() =~= before);
                lemma_prepend_push(tokens_view(before), token_view(value), rd_token_list(b, self.position as int, (count - i - 1) as nat));
            }
            i = i + 1;
        }
        proof {
            lemma_prepend_empty(tokens_view(values@), self.position as int);
        }
        Ok(values)
    }
}

/// The token kind without payload that a tag (at most 47, not 20 to 26)
/// stands for.
fn simple_type_of(tag: u8) -> (r: Type)
    requires
        tag <= 47,
        !(20 <= tag <= 26),
    ensures
        type_view(r) == simple_type_of_tag(tag),
{
    match tag {
        0 => Type::EOL,
        1 => Type::EOF,
        2 => Type::Mut,
        3 => Type::Immut,
        4 => Type::Ref,
        5 => Type::Func,
        6 => Type::Private,
        7 => Type::Colon,
        8 => Type::DoubleColon,
        9 => Type::ColonArrow,
        10 => Type::If,
        11 => Type::Else,
        12 => Type::While,
        13 => Type::Break,
        14 => Type::Continue,
        15 => Type::Ret,
        16 => Type::Object,
        17 => Type::Namespace,
        18 => Type::Entry,
        19 => Type::Constructor,
        27 => Type::LParen,
        28 => Type::RParen,
        29 => Type::LBrace,
        30 => Type::RBrace,
        31 => Type::Comma,
        32 => Type::Equals,
        33 => Type::DoubleEquals,
        34 => Type::BangEquals,
        35 => Type::LessThan,
        36 => Type::GreaterThan,
        37 => Type::LessThanOrEqual,
        38 => Type::GreaterThanOrEqual,
        39 => Type::Plus,
        40 => Type::Minus,
        41 => Type::Star,
        42 => Type::Slash,
        43 => Type::Percent,
        44 => Type::Exponent,
        45 => Type::Bang,
        46 => Type::DoubleAmpersand,
        _ => Type::DoublePipe,
    }
}

/// Reads a whole program; what is read must end exactly at the end of the bytes.
fn read_program(bytes: &[u8]) -> (r: Result<Program, FormatError>)
    ensures
        match rd_program(bytes@) {
            Ok(p) => r is Ok && r->Ok_0@ == p,
            Err(e) => r == Err::<Program, FormatError>(e),
        },
{
    let mut reader = ByteReader::new(bytes);
    let magic = reader.take(4)?;
    if !(magic[0] == 67 && magic[1] == 82 && magic[2] == 83 && magic[3] == 84) {
        return Err(FormatError::InvalidHeader);
    }
    proof {
        assert(magic@ =~= crst_magic());
    }
    if reader.u8()? != 1 {
        return Err(FormatError::UnsupportedVersion);
    }
    let items = reader.items()?;
    if !reader.is_empty() {
        return Err(FormatError::TrailingBytes);
    }
    Ok(Program { items })
}

impl Program {
    /// Reads a program from its CRST bytes. Fails, with the reader's message,
    /// exactly where the format says the bytes are not a program.
    pub fn from_bytes(bytes: &[u8]) -> (r: Result<Program, String>)
        ensures
            match rd_program(bytes@) {
                Ok(p) => r is Ok && r->Ok_0@ == p,
                Err(e) => r is Err && r->Err_0@ == format_message(e),
            },
    {
        match read_program(bytes) {
            Ok(program) => Ok(program),
            Err(error) => Err(error.message()),
        }
    }
}

} // verus!
