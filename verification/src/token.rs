//! Tokens produced by the lexer, and their model.
use vstd::prelude::*;

verus! {

/// The kind of a token, with its payload. A floating-point literal is held by
/// the bit pattern of its IEEE-754 binary64 value.
#[derive(Debug, PartialEq)]
pub enum Type {
    EOL,
    EOF,
    Mut,
    Immut,
    Ref,
    Func,
    Private,
    Colon,
    DoubleColon,
    ColonArrow,
    If,
    Else,
    While,
    Break,
    Continue,
    Ret,
    Object,
    Namespace,
    Entry,
    Constructor,
    Identifier(String),
    Integer(i64),
    Float(u64),
    String(String),
    Char(char),
    Boolean(bool),
    Get(Vec<Token>),
    LParen,
    RParen,
    LBrace,
    RBrace,
    Comma,
    Equals,
    DoubleEquals,
    BangEquals,
    LessThan,
    GreaterThan,
    LessThanOrEqual,
    GreaterThanOrEqual,
    Plus,
    Minus,
    Star,
    Slash,
    Percent,
    Exponent,
    Bang,
    DoubleAmpersand,
    DoublePipe,
}

/// A token with the place where it was read.
#[derive(Debug, PartialEq)]
pub struct Token {
    pub token_type: Type,
    pub line: usize,
    pub column: usize,
    pub file: String,
}

/// The model of a token kind.
pub enum SpecType {
    EOL,
    EOF,
    Mut,
    Immut,
    Ref,
    Func,
    Private,
    Colon,
    DoubleColon,
    ColonArrow,
    If,
    Else,
    While,
    Break,
    Continue,
    Ret,
    Object,
    Namespace,
    Entry,
    Constructor,
    Identifier(Seq<char>),
    Integer(i64),
    Float(u64),
    String(Seq<char>),
    Char(char),
    Boolean(bool),
    Get(Seq<SpecToken>),
    LParen,
    RParen,
    LBrace,
    RBrace,
    Comma,
    Equals,
    DoubleEquals,
    BangEquals,
    LessThan,
    GreaterThan,
    LessThanOrEqual,
    GreaterThanOrEqual,
    Plus,
    Minus,
    Star,
    Slash,
    Percent,
    Exponent,
    Bang,
    DoubleAmpersand,
    DoublePipe,
}

/// The model of a token.
pub struct SpecToken {
    pub token_type: SpecType,
    pub line: usize,
    pub column: usize,
    pub file: Seq<char>,
}

pub open spec fn type_view(t: Type) -> SpecType
    decreases t,
{
    match t {
        Type::EOL => SpecType::EOL,
        Type::EOF => SpecType::EOF,
        Type::Mut => SpecType::Mut,
        Type::Immut => SpecType::Immut,
        Type::Ref => SpecType::Ref,
        Type::Func => SpecType::Func,
        Type::Private => SpecType::Private,
        Type::Colon => SpecType::Colon,
        Type::DoubleColon => SpecType::DoubleColon,
        Type::ColonArrow => SpecType::ColonArrow,
        Type::If => SpecType::If,
        Type::Else => SpecType::Else,
        Type::While => SpecType::While,
        Type::Break => SpecType::Break,
        Type::Continue => SpecType::Continue,
        Type::Ret => SpecType::Ret,
        Type::Object => SpecType::Object,
        Type::Namespace => SpecType::Namespace,
        Type::Entry => SpecType::Entry,
        Type::Constructor => SpecType::Constructor,
        Type::Identifier(s) => SpecType::Identifier(s@),
        Type::Integer(v) => SpecType::Integer(v),
        Type::Float(v) => SpecType::Float(v),
        Type::String(s) => SpecType::String(s@),
        Type::Char(c) => SpecType::Char(c),
        Type::Boolean(b) => SpecType::Boolean(b),
        Type::Get(ts) => SpecType::Get(tokens_view(ts@)),
        Type::LParen => SpecType::LParen,
        Type::RParen => SpecType::RParen,
        Type::LBrace => SpecType::LBrace,
        Type::RBrace => SpecType::RBrace,
        Type::Comma => SpecType::Comma,
        Type::Equals => SpecType::Equals,
        Type::DoubleEquals => SpecType::DoubleEquals,
        Type::BangEquals => SpecType::BangEquals,
        Type::LessThan => SpecType::LessThan,
        Type::GreaterThan => SpecType::GreaterThan,
        Type::LessThanOrEqual => SpecType::LessThanOrEqual,
        Type::GreaterThanOrEqual => SpecType::GreaterThanOrEqual,
        Type::Plus => SpecType::Plus,
        Type::Minus => SpecType::Minus,
        Type::Star => SpecType::Star,
        Type::Slash => SpecType::Slash,
        Type::Percent => SpecType::Percent,
        Type::Exponent => SpecType::Exponent,
        Type::Bang => SpecType::Bang,
        Type::DoubleAmpersand => SpecType::DoubleAmpersand,
        Type::DoublePipe => SpecType::DoublePipe,
    }
}

pub open spec fn token_view(t: Token) -> SpecToken
    decreases t,
{
    SpecToken { token_type: type_view(t.token_type), line: t.line, column: t.column, file: t.file@ }
}

pub open spec fn tokens_view(s: Seq<Token>) -> Seq<SpecToken>
    decreases s,
{
    if s.len() == 0 {
        Seq::empty()
    } else {
        tokens_view(s.drop_last()).push(token_view(s.last()))
    }
}

impl View for Type {
    type V = SpecType;

    open spec fn view(&self) -> SpecType {
        type_view(*self)
    }
}

impl View for Token {
    type V = SpecToken;

    open spec fn view(&self) -> SpecToken {
        token_view(*self)
    }
}

/// The model of a list of tokens, index by index.
pub broadcast proof fn lemma_tokens_view(s: Seq<Token>)
    ensures
        (#[trigger] tokens_view(s)).len() == s.len(),
        forall|i: int| 0 <= i < s.len() ==> #[trigger] tokens_view(s)[i] == token_view(s[i]),
    decreases s.len(),
{
    if s.len() > 0 {
        lemma_tokens_view(s.drop_last());
    }
}

/// The model of a char token kind holds the char.
pub proof fn lemma_char_type_view(c: char)
    ensures
        type_view(Type::Char(c)) == SpecType::Char(c),
{
}

impl Type {
    /// A copy of this token kind, nested tokens included.
    pub fn duplicate(&self) -> (r: Type)
        ensures
            r@ == self@,
        decreases self,
    {
        match self {
            Type::Identifier(s) => Type::Identifier(s.clone()),
            Type::String(s) => Type::String(s.clone()),
            Type::Integer(v) => Type::Integer(*v),
            Type::Float(v) => Type::Float(*v),
            Type::Char(c) => Type::Char(*c),
            Type::Boolean(b) => Type::Boolean(*b),
            Type::Get(ts) => Type::Get(duplicate_tokens(ts)),
            Type::EOL => Type::EOL,
            Type::EOF => Type::EOF,
            Type::Mut => Type::Mut,
            Type::Immut => Type::Immut,
            Type::Ref => Type::Ref,
            Type::Func => Type::Func,
            Type::Private => Type::Private,
            Type::Colon => Type::Colon,
            Type::DoubleColon => Type::DoubleColon,
            Type::ColonArrow => Type::ColonArrow,
            Type::If => Type::If,
            Type::Else => Type::Else,
            Type::While => Type::While,
            Type::Break => Type::Break,
            Type::Continue => Type::Continue,
            Type::Ret => Type::Ret,
            Type::Object => Type::Object,
            Type::Namespace => Type::Namespace,
            Type::Entry => Type::Entry,
            Type::Constructor => Type::Constructor,
            Type::LParen => Type::LParen,
            Type::RParen => Type::RParen,
            Type::LBrace => Type::LBrace,
            Type::RBrace => Type::RBrace,
            Type::Comma => Type::Comma,
            Type::Equals => Type::Equals,
            Type::DoubleEquals => Type::DoubleEquals,
            Type::BangEquals => Type::BangEquals,
            Type::LessThan => Type::LessThan,
            Type::GreaterThan => Type::GreaterThan,
            Type::LessThanOrEqual => Type::LessThanOrEqual,
            Type::GreaterThanOrEqual => Type::GreaterThanOrEqual,
            Type::Plus => Type::Plus,
            Type::Minus => Type::Minus,
            Type::Star => Type::Star,
            Type::Slash => Type::Slash,
            Type::Percent => Type::Percent,
            Type::Exponent => Type::Exponent,
            Type::Bang => Type::Bang,
            Type::DoubleAmpersand => Type::DoubleAmpersand,
            Type::DoublePipe => Type::DoublePipe,
        }
    }
}

impl Token {
    /// A copy of this token, nested tokens included.
    pub fn duplicate(&self) -> (r: Token)
        ensures
            r@ == self@,
        decreases self,
    {
        Token {
            token_type: self.token_type.duplicate(),
            line: self.line,
            column: self.column,
            file: self.file.clone(),
        }
    }
}

/// A copy of a list of tokens.
pub fn duplicate_tokens(ts: &Vec<Token>) -> (r: Vec<Token>)
    ensures
        tokens_view(r@) == tokens_view(ts@),
    decreases ts,
{
    let mut r: Vec<Token> = Vec::new();
    let mut i: usize = 0;
    while i < ts.len()
        invariant
            i <= ts@.len(),
            tokens_view(r@) == tokens_view(ts@.subrange(0, i as int)),
        decreases ts@.len() - i,
    {
        let t = ts[i].duplicate();
        let ghost before = r@;
        r.push(t);
        proof {
            assert(r@.drop_last() =~= before);
            assert(ts@.subrange(0, i + 1).drop_last() =~= ts@.subrange(0, i as int));
        }
        i = i + 1;
    }
    proof {
        assert(ts@.subrange(0, ts@.len() as int) =~= ts@);
    }
    r
}

} // verus!
