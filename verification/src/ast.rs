//! The syntax tree of a Crust program, and its mathematical model.
//!
//! Every executable type has a view (`@`) into a model type whose strings are
//! `Seq<char>` and whose vectors are `Seq`s; contracts speak of the models.
use vstd::prelude::*;

verus! {

/// A whole program: the top-level items in source order.
#[derive(Debug, PartialEq)]
pub struct Program {
    pub items: Vec<Item>,
}

/// A top-level (or namespace-level) item.
#[derive(Debug, PartialEq)]
pub enum Item {
    Statement(Stmt),
    Function(Function),
    Object(Object),
    Namespace(Namespace),
    Entry(Vec<Stmt>),
}

/// A function, method or constructor.
#[derive(Debug, PartialEq)]
pub struct Function {
    pub name: String,
    pub private: bool,
    pub parameters: Vec<Parameter>,
    pub body: Vec<Stmt>,
}

/// A parameter of a function.
#[derive(Debug, Clone, PartialEq)]
pub struct Parameter {
    pub name: String,
    pub mutable: bool,
    pub reference: bool,
}

/// An object declaration: fields, an optional constructor and methods.
#[derive(Debug, PartialEq)]
pub struct Object {
    pub name: String,
    pub fields: Vec<Field>,
    pub constructor: Option<Function>,
    pub methods: Vec<Function>,
}

/// A field of an object.
#[derive(Debug, Clone, PartialEq)]
pub struct Field {
    pub name: String,
    pub mutable: bool,
    pub private: bool,
}

/// A namespace and the items declared in it.
#[derive(Debug, PartialEq)]
pub struct Namespace {
    pub name: String,
    pub items: Vec<Item>,
}

/// A statement.
#[derive(Debug, PartialEq)]
pub enum Stmt {
    Let { mutable: bool, name: String, value: Expr },
    Assign { target: Expr, value: Expr },
    Expr(Expr),
    If { condition: Expr, body: Vec<Stmt>, else_body: Option<Vec<Stmt>> },
    While { condition: Expr, body: Vec<Stmt> },
    Break,
    Continue,
    Return(Option<Expr>),
    Block(Vec<Stmt>),
}

/// An expression. A floating-point literal is held by the bit pattern of its
/// IEEE-754 binary64 value.
#[derive(Debug, PartialEq)]
pub enum Expr {
    Integer(i64),
    Float(u64),
    String(String),
    Char(char),
    Boolean(bool),
    Name(String),
    Unary { operator: UnaryOp, value: Box<Expr> },
    Binary { left: Box<Expr>, operator: BinaryOp, right: Box<Expr> },
    Call { callee: Box<Expr>, arguments: Vec<Expr> },
    Access { value: Box<Expr>, operator: AccessOp, member: String },
    Group(Box<Expr>),
}

#[derive(Debug, Clone, Copy, PartialEq, Eq, Structural)]
pub enum UnaryOp {
    Not,
    Negate,
}

#[derive(Debug, Clone, Copy, PartialEq, Eq, Structural)]
pub enum BinaryOp {
    Add,
    Subtract,
    Multiply,
    Divide,
    Remainder,
    Exponent,
    Equal,
    NotEqual,
    Less,
    LessOrEqual,
    Greater,
    GreaterOrEqual,
    And,
    Or,
}

#[derive(Debug, Clone, Copy, PartialEq, Eq, Structural)]
pub enum AccessOp {
    Namespace,
    Member,
}

// ---------------------------------------------------------------------------
// The model
// ---------------------------------------------------------------------------

pub struct SpecProgram {
    pub items: Seq<SpecItem>,
}

pub enum SpecItem {
    Statement(SpecStmt),
    Function(SpecFunction),
    Object(SpecObject),
    Namespace(SpecNamespace),
    Entry(Seq<SpecStmt>),
}

pub struct SpecFunction {
    pub name: Seq<char>,
    pub private: bool,
    pub parameters: Seq<SpecParameter>,
    pub body: Seq<SpecStmt>,
}

pub struct SpecParameter {
    pub name: Seq<char>,
    pub mutable: bool,
    pub reference: bool,
}

pub struct SpecObject {
    pub name: Seq<char>,
    pub fields: Seq<SpecField>,
    pub constructor: Option<SpecFunction>,
    pub methods: Seq<SpecFunction>,
}

pub struct SpecField {
    pub name: Seq<char>,
    pub mutable: bool,
    pub private: bool,
}

pub struct SpecNamespace {
    pub name: Seq<char>,
    pub items: Seq<SpecItem>,
}

pub enum SpecStmt {
    Let { mutable: bool, name: Seq<char>, value: SpecExpr },
    Assign { target: SpecExpr, value: SpecExpr },
    Expr(SpecExpr),
    If { condition: SpecExpr, body: Seq<SpecStmt>, else_body: Option<Seq<SpecStmt>> },
    While { condition: SpecExpr, body: Seq<SpecStmt> },
    Break,
    Continue,
    Return(Option<SpecExpr>),
    Block(Seq<SpecStmt>),
}

pub enum SpecExpr {
    Integer(i64),
    Float(u64),
    String(Seq<char>),
    Char(char),
    Boolean(bool),
    Name(Seq<char>),
    Unary { operator: UnaryOp, value: Box<SpecExpr> },
    Binary { left: Box<SpecExpr>, operator: BinaryOp, right: Box<SpecExpr> },
    Call { callee: Box<SpecExpr>, arguments: Seq<SpecExpr> },
    Access { value: Box<SpecExpr>, operator: AccessOp, member: Seq<char> },
    Group(Box<SpecExpr>),
}

pub open spec fn expr_view(e: Expr) -> SpecExpr
    decreases e,
{
    match e {
        Expr::Integer(v) => SpecExpr::Integer(v),
        Expr::Float(v) => SpecExpr::Float(v),
        Expr::String(v) => SpecExpr::String(v@),
        Expr::Char(v) => SpecExpr::Char(v),
        Expr::Boolean(v) => SpecExpr::Boolean(v),
        Expr::Name(v) => SpecExpr::Name(v@),
        Expr::Unary { operator, value } => SpecExpr::Unary {
            operator,
            value: Box::new(expr_view(*value)),
        },
        Expr::Binary { left, operator, right } => SpecExpr::Binary {
            left: Box::new(expr_view(*left)),
            operator,
            right: Box::new(expr_view(*right)),
        },
        Expr::Call { callee, arguments } => SpecExpr::Call {
            callee: Box::new(expr_view(*callee)),
            arguments: exprs_view(arguments@),
        },
        Expr::Access { value, operator, member } => SpecExpr::Access {
            value: Box::new(expr_view(*value)),
            operator,
            member: member@,
        },
        Expr::Group(value) => SpecExpr::Group(Box::new(expr_view(*value))),
    }
}

pub open spec fn exprs_view(s: Seq<Expr>) -> Seq<SpecExpr>
    decreases s,
{
    if s.len() == 0 {
        Seq::empty()
    } else {
        exprs_view(s.drop_last()).push(expr_view(s.last()))
    }
}

pub open spec fn stmt_view(s: Stmt) -> SpecStmt
    decreases s,
{
    match s {
        Stmt::Let { mutable, name, value } => SpecStmt::Let { mutable, name: name@, value: expr_view(value) },
        Stmt::Assign { target, value } => SpecStmt::Assign {
            target: expr_view(target),
            value: expr_view(value),
        },
        Stmt::Expr(e) => SpecStmt::Expr(expr_view(e)),
        Stmt::If { condition, body, else_body } => SpecStmt::If {
            condition: expr_view(condition),
            body: stmts_view(body@),
            else_body: match else_body {
                Some(b) => Some(stmts_view(b@)),
                None => None,
            },
        },
        Stmt::While { condition, body } => SpecStmt::While {
            condition: expr_view(condition),
            body: stmts_view(body@),
        },
        Stmt::Break => SpecStmt::Break,
        Stmt::Continue => SpecStmt::Continue,
        Stmt::Return(e) => SpecStmt::Return(
            match e {
                Some(e) => Some(expr_view(e)),
                None => None,
            },
        ),
        Stmt::Block(b) => SpecStmt::Block(stmts_view(b@)),
    }
}

pub open spec fn stmts_view(s: Seq<Stmt>) -> Seq<SpecStmt>
    decreases s,
{
    if s.len() == 0 {
        Seq::empty()
    } else {
        stmts_view(s.drop_last()).push(stmt_view(s.last()))
    }
}

pub open spec fn parameter_view(p: Parameter) -> SpecParameter {
    SpecParameter { name: p.name@, mutable: p.mutable, reference: p.reference }
}

pub open spec fn field_view(f: Field) -> SpecField {
    SpecField { name: f.name@, mutable: f.mutable, private: f.private }
}

pub open spec fn function_view(f: Function) -> SpecFunction {
    SpecFunction {
        name: f.name@,
        private: f.private,
        parameters: f.parameters@.map_values(|p: Parameter| parameter_view(p)),
        body: stmts_view(f.body@),
    }
}

pub open spec fn object_view(o: Object) -> SpecObject {
    SpecObject {
        name: o.name@,
        fields: o.fields@.map_values(|f: Field| field_view(f)),
        constructor: match o.constructor {
            Some(c) => Some(function_view(c)),
            None => None,
        },
        methods: o.methods@.map_values(|m: Function| function_view(m)),
    }
}

pub open spec fn item_view(i: Item) -> SpecItem
    decreases i,
{
    match i {
        Item::Statement(s) => SpecItem::Statement(stmt_view(s)),
        Item::Function(f) => SpecItem::Function(function_view(f)),
        Item::Object(o) => SpecItem::Object(object_view(o)),
        Item::Namespace(n) => SpecItem::Namespace(
            SpecNamespace { name: n.name@, items: items_view(n.items@) },
        ),
        Item::Entry(b) => SpecItem::Entry(stmts_view(b@)),
    }
}

pub open spec fn items_view(s: Seq<Item>) -> Seq<SpecItem>
    decreases s,
{
    if s.len() == 0 {
        Seq::empty()
    } else {
        items_view(s.drop_last()).push(item_view(s.last()))
    }
}

impl View for Program {
    type V = SpecProgram;

    open spec fn view(&self) -> SpecProgram {
        SpecProgram { items: items_view(self.items@) }
    }
}

impl View for Item {
    type V = SpecItem;

    open spec fn view(&self) -> SpecItem {
        item_view(*self)
    }
}

impl View for Function {
    type V = SpecFunction;

    open spec fn view(&self) -> SpecFunction {
        function_view(*self)
    }
}

impl View for Parameter {
    type V = SpecParameter;

    open spec fn view(&self) -> SpecParameter {
        parameter_view(*self)
    }
}

impl View for Object {
    type V = SpecObject;

    open spec fn view(&self) -> SpecObject {
        object_view(*self)
    }
}

impl View for Field {
    type V = SpecField;

    open spec fn view(&self) -> SpecField {
        field_view(*self)
    }
}

impl View for Namespace {
    type V = SpecNamespace;

    open spec fn view(&self) -> SpecNamespace {
        SpecNamespace { name: self.name@, items: items_view(self.items@) }
    }
}

impl View for Stmt {
    type V = SpecStmt;

    open spec fn view(&self) -> SpecStmt {
        stmt_view(*self)
    }
}

impl View for Expr {
    type V = SpecExpr;

    open spec fn view(&self) -> SpecExpr {
        expr_view(*self)
    }
}

/// The model of a list of expressions has the list's length and, at each
/// index, the model of the expression there.
pub broadcast proof fn lemma_exprs_view(s: Seq<Expr>)
    ensures
        (#[trigger] exprs_view(s)).len() == s.len(),
        forall|i: int| 0 <= i < s.len() ==> #[trigger] exprs_view(s)[i] == expr_view(s[i]),
    decreases s.len(),
{
    if s.len() > 0 {
        lemma_exprs_view(s.drop_last());
    }
}

/// The model of a list of statements, index by index.
pub broadcast proof fn lemma_stmts_view(s: Seq<Stmt>)
    ensures
        (#[trigger] stmts_view(s)).len() == s.len(),
        forall|i: int| 0 <= i < s.len() ==> #[trigger] stmts_view(s)[i] == stmt_view(s[i]),
    decreases s.len(),
{
    if s.len() > 0 {
        lemma_stmts_view(s.drop_last());
    }
}

/// The model of a list of items, index by index.
pub broadcast proof fn lemma_items_view(s: Seq<Item>)
    ensures
        (#[trigger] items_view(s)).len() == s.len(),
        forall|i: int| 0 <= i < s.len() ==> #[trigger] items_view(s)[i] == item_view(s[i]),
    decreases s.len(),
{
    if s.len() > 0 {
        lemma_items_view(s.drop_last());
    }
}

pub broadcast group group_ast_views {
    lemma_exprs_view,
    lemma_stmts_view,
    lemma_items_view,
}

} // verus!
