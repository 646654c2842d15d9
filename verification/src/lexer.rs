//! The lexer: from the text of a source file to tokens.
//!
//! Two things it leaves to its caller, each by pausing: reading the file that
//! a `get` line names (whose tokens become one `Get` token), and turning the
//! text of a number with a decimal point into its binary64 value.
use vstd::prelude::*;
use crate::lexer_spec::{
    LState, SpecLexed, lwf, blank_end, find_char, word_end, number_end, utf8_width, utf8_len,
    digits_value, word_type, single_char_type, token_at, next_is, bump, skip_blank, one, quoted,
    char_literal, string_literal, include_line, word, number, lex_char, lex_step, lex_run,
    lemma_blank_end, lemma_find_char, lemma_number_end, lemma_utf8_len, lemma_digits_value_prefix,
};
use crate::text::{
    is_whitespace, is_alphabetic, is_alphanumeric, is_decimal_digit, is_digit, describe_error,
    place_message, string_of, same_text, chars_of,
};
use crate::token::{Token, Type, SpecToken, tokens_view, lemma_char_type_view};

verus! {

/// What one step of the lexer yields.
#[derive(Debug, PartialEq)]
pub enum Lexed {
    /// An ordinary token.
    Token(Token),
    /// A `get` line: the path written after `get`, and the place of the
    /// token that the named file's tokens make.
    Include { path: String, line: usize, column: usize },
    /// A number with a decimal point: its text and the place of its token.
    Float { text: String, line: usize, column: usize },
    /// A lexing error, with its message.
    Failed(String),
    /// A token's column would come out below zero.
    Underflow,
}

impl View for Lexed {
    type V = SpecLexed;

    open spec fn view(&self) -> SpecLexed {
        match self {
            Lexed::Token(t) => SpecLexed::Token(t@),
            Lexed::Include { path, line, column } => SpecLexed::Include {
                path: path@,
                line: *line as int,
                column: *column as int,
            },
            Lexed::Float { text, line, column } => SpecLexed::Float {
                text: text@,
                line: *line as int,
                column: *column as int,
            },
            Lexed::Failed(m) => SpecLexed::Failed(m@),
            Lexed::Underflow => SpecLexed::Underflow,
        }
    }
}

/// A lexer over the text of one source file.
pub struct Lexer {
    chars: Vec<char>,
    position: usize,
    current_line: usize,
    current_column: usize,
    current_file: String,
}

impl View for Lexer {
    type V = LState;

    closed spec fn view(&self) -> LState {
        LState {
            chars: self.chars@,
            pos: self.position as int,
            line: self.current_line as int,
            column: self.current_column as int,
        }
    }
}

/// The number of UTF-8 bytes of the chars.
fn utf8_length(chars: &Vec<char>) -> (r: u128)
    ensures
        r == utf8_len(chars@),
{
    let mut total: u128 = 0;
    let mut i: usize = 0;
    while i < chars.len()
        invariant
            i <= chars.len(),
            total == utf8_len(chars@.take(i as int)),
            total <= 4 * i,
        decreases chars.len() - i,
    {
        let c = chars[i];
        let v = c as u32;
        let w: u128 = if v < 0x80 {
            1
        } else if v < 0x800 {
            2
        } else if v < 0x10000 {
            3
        } else {
            4
        };
        proof {
            assert(chars@.take(i + 1).drop_last() =~= chars@.take(i as int));
            assert(w == utf8_width(c));
        }
        total = total + w;
        i = i + 1;
    }
    proof {
        assert(chars@.take(i as int) =~= chars@);
    }
    total
}

/// The value of a string of decimal digits, where it fits in an `i64`.
fn integer_value(digits: &Vec<char>) -> (r: Option<i64>)
    requires
        forall|k: int| 0 <= k < digits.len() ==> is_digit(#[trigger] digits@[k]),
    ensures
        r == (if digits_value(digits@) <= i64::MAX {
            Some(digits_value(digits@) as i64)
        } else {
            None::<i64>
        }),
{
    let mut value: i64 = 0;
    let mut i: usize = 0;
    while i < digits.len()
        invariant
            i <= digits.len(),
            forall|k: int| 0 <= k < digits.len() ==> is_digit(#[trigger] digits@[k]),
            value == digits_value(digits@.take(i as int)),
        decreases digits.len() - i,
    {
        let c = digits[i];
        let d = (c as u32 - 48) as i64;
        proof {
            assert(is_digit(digits@[i as int]));
            assert(digits@.take(i + 1).drop_last() =~= digits@.take(i as int));
            assert(digits@.take(i + 1).last() == c);
        }
        if value > 922337203685477580 || (value == 922337203685477580 && d > 7) {
            proof {
                lemma_digits_value_prefix(digits@, i + 1);
            }
            return None;
        }
        value = value * 10 + d;
        i = i + 1;
    }
    proof {
        assert(digits@.take(i as int) =~= digits@);
    }
    Some(value)
}

/// The token that a char stands for on its own, where it does.
fn single_char(c: char) -> (r: Option<Type>)
    ensures
        match r {
            Some(t) => single_char_type(c) == Some(t@),
            None => single_char_type(c) is None,
        },
{
    if c == '+' {
        Some(Type::Plus)
    } else if c == '-' {
        Some(Type::Minus)
    } else if c == '*' {
        Some(Type::Star)
    } else if c == '/' {
        Some(Type::Slash)
    } else if c == '%' {
        Some(Type::Percent)
    } else if c == '^' {
        Some(Type::Exponent)
    } else if c == '(' {
        Some(Type::LParen)
    } else if c == ')' {
        Some(Type::RParen)
    } else if c == '{' {
        Some(Type::LBrace)
    } else if c == '}' {
        Some(Type::RBrace)
    } else if c == ',' {
        Some(Type::Comma)
    } else {
        None
    }
}

impl Lexer {
    /// The name of the file the text comes from.
    pub closed spec fn file(&self) -> Seq<char> {
        self.current_file@
    }

    pub closed spec fn inv(&self) -> bool {
        &&& lwf(self@)
        &&& self.chars.len() == self@.chars.len()
    }

    /// A lexer at the start of the text: line 1, column 0.
    pub fn new(code: &str, file_name: &str) -> (r: Lexer)
        requires
            code@.len() + 2 <= usize::MAX,
        ensures
            r.inv(),
            r@ == (LState { chars: code@, pos: 0, line: 1, column: 0 }),
            r.file() == file_name@,
    {
        let chars = chars_of(code);
        Lexer {
            chars,
            position: 0,
            current_line: 1,
            current_column: 0,
            current_file: String::from_str(file_name),
        }
    }

    /// The name of the file the text comes from.
    pub fn current_file(&self) -> (r: String)
        ensures
            r@ == self.file(),
    {
        self.current_file.clone()
    }

    /// The message of the error for a `get` line whose file cannot be read,
    /// placed where its token would stand.
    pub fn missing_file_message(&self, path: &str, line: usize, column: usize) -> (r: String)
        ensures
            r@ == place_message("file not found: "@ + path@, self.file(), line as nat, column as nat),
    {
        let message = String::from_str("file not found: ").concat(path);
        describe_error(message.as_str(), self.current_file.as_str(), line, column)
    }

    fn next_is(&self, c: char) -> (r: bool)
        requires
            self.inv(),
        ensures
            r == next_is(self@, c),
    {
        self.position < self.chars.len() && self.chars[self.position] == c
    }

    /// Reads the next char, one column on.
    fn bump(&mut self)
        requires
            old(self).inv(),
            old(self)@.pos < old(self)@.chars.len(),
        ensures
            final(self).inv(),
            final(self)@ == bump(old(self)@),
            final(self).file() == old(self).file(),
    {
        self.position = self.position + 1;
        self.current_column = self.current_column + 1;
    }

    fn token(&self, t: Type, line: usize, column: usize) -> (r: Lexed)
        ensures
            r@ == token_at(t@, line as int, column as int, self.file()),
    {
        Lexed::Token(Token { token_type: t, line, column, file: self.current_file.clone() })
    }

    /// Skips blanks (white space other than a line end), each a column.
    pub fn skip_whitespace(&mut self)
        requires
            old(self).inv(),
        ensures
            old(self)@.pos <= final(self)@.pos,
            final(self)@.chars == old(self)@.chars,
            final(self).inv(),
            final(self)@ == skip_blank(old(self)@),
            final(self).file() == old(self).file(),
    {
        let ghost st0 = self@;
        loop
            invariant
                self.inv(),
                self.file() == old(self).file(),
                self@.chars == st0.chars,
                self@.line == st0.line,
                st0.pos <= self@.pos,
                self@.column == st0.column + (self@.pos - st0.pos),
                blank_end(st0.chars, st0.pos) == blank_end(self@.chars, self@.pos),
            ensures
                self.inv(),
                self.file() == old(self).file(),
                self@ == skip_blank(st0),
            decreases self.chars.len() - self.position,
        {
            if self.position >= self.chars.len() {
                break;
            }
            let c = self.chars[self.position];
            if is_whitespace(c) && c != '\n' {
                self.bump();
            } else {
                break;
            }
        }
    }

    /// Reads up to (not including) the next `stop` or the end, counting a
    /// column for each char read where `count` is set.
    fn take_until(&mut self, stop: char, count: bool) -> (r: Vec<char>)
        requires
            old(self).inv(),
        ensures
            old(self)@.pos <= final(self)@.pos,
            final(self)@.chars == old(self)@.chars,
            final(self).inv(),
            final(self).file() == old(self).file(),
            ({
                let e = find_char(old(self)@.chars, old(self)@.pos, stop);
                &&& r@ == old(self)@.chars.subrange(old(self)@.pos, e)
                &&& final(self)@ == (LState {
                    pos: e,
                    column: old(self)@.column + if count { e - old(self)@.pos } else { 0 },
                    ..old(self)@
                })
            }),
    {
        let ghost st0 = self@;
        let mut taken: Vec<char> = Vec::new();
        while self.position < self.chars.len() && self.chars[self.position] != stop
            invariant
                self.inv(),
                self.file() == old(self).file(),
                st0 == old(self)@,
                self@.chars == st0.chars,
                self@.line == st0.line,
                st0.pos <= self@.pos,
                self@.column == st0.column + if count { self@.pos - st0.pos } else { 0 },
                taken@ == st0.chars.subrange(st0.pos, self@.pos),
                find_char(st0.chars, st0.pos, stop) == find_char(self@.chars, self@.pos, stop),
            decreases self.chars.len() - self.position,
        {
            taken.push(self.chars[self.position]);
            proof {
                assert(taken@ =~= st0.chars.subrange(st0.pos, self@.pos + 1));
            }
            if count {
                self.bump();
            } else {
                self.position = self.position + 1;
            }
        }
        taken
    }

    /// Reads the rest of a word onto `w`, a column for each char.
    fn take_word(&mut self, w: &mut Vec<char>)
        requires
            old(self).inv(),
        ensures
            old(self)@.pos <= final(self)@.pos,
            final(self)@.chars == old(self)@.chars,
            final(self).inv(),
            final(self).file() == old(self).file(),
            ({
                let e = word_end(old(self)@.chars, old(self)@.pos);
                &&& final(w)@ == old(w)@ + old(self)@.chars.subrange(old(self)@.pos, e)
                &&& final(self)@ == (LState { pos: e, column: old(self)@.column + (e - old(self)@.pos), ..old(self)@ })
            }),
    {
        let ghost st0 = self@;
        let ghost w0 = w@;
        loop
            invariant
                self.inv(),
                self.file() == old(self).file(),
                st0 == old(self)@,
                w0 == old(w)@,
                self@.chars == st0.chars,
                self@.line == st0.line,
                st0.pos <= self@.pos,
                self@.column == st0.column + (self@.pos - st0.pos),
                w@ == w0 + st0.chars.subrange(st0.pos, self@.pos),
                word_end(st0.chars, st0.pos) == word_end(self@.chars, self@.pos),
            ensures
                self.inv(),
                self.file() == old(self).file(),
                self@.chars == st0.chars,
                self@.line == st0.line,
                self@.column == st0.column + (self@.pos - st0.pos),
                w@ == w0 + st0.chars.subrange(st0.pos, self@.pos),
                word_end(st0.chars, st0.pos) == self@.pos,
            decreases self.chars.len() - self.position,
        {
            if self.position >= self.chars.len() {
                break;
            }
            let c = self.chars[self.position];
            if is_alphanumeric(c) || c == '_' {
                w.push(c);
                proof {
                    assert(w@ =~= w0 + st0.chars.subrange(st0.pos, self@.pos + 1));
                }
                self.bump();
            } else {
                break;
            }
        }
    }

    /// Reads the rest of a number onto `text`, a column for each char; tells
    /// whether a decimal point was read.
    fn take_number(&mut self, text: &mut Vec<char>) -> (dot: bool)
        requires
            old(self).inv(),
        ensures
            old(self)@.pos <= final(self)@.pos,
            final(self)@.chars == old(self)@.chars,
            final(self).inv(),
            final(self).file() == old(self).file(),
            ({
                let (e, d) = number_end(old(self)@.chars, old(self)@.pos, false);
                &&& dot == d
                &&& final(text)@ == old(text)@ + old(self)@.chars.subrange(old(self)@.pos, e)
                &&& final(self)@ == (LState { pos: e, column: old(self)@.column + (e - old(self)@.pos), ..old(self)@ })
            }),
    {
        let ghost st0 = self@;
        let ghost t0 = text@;
        let mut is_float = false;
        loop
            invariant
                self.inv(),
                self.file() == old(self).file(),
                st0 == old(self)@,
                t0 == old(text)@,
                self@.chars == st0.chars,
                self@.line == st0.line,
                st0.pos <= self@.pos,
                self@.column == st0.column + (self@.pos - st0.pos),
                text@ == t0 + st0.chars.subrange(st0.pos, self@.pos),
                number_end(st0.chars, st0.pos, false) == number_end(self@.chars, self@.pos, is_float),
            ensures
                self.inv(),
                self.file() == old(self).file(),
                self@.chars == st0.chars,
                self@.line == st0.line,
                self@.column == st0.column + (self@.pos - st0.pos),
                text@ == t0 + st0.chars.subrange(st0.pos, self@.pos),
                number_end(st0.chars, st0.pos, false) == (self@.pos, is_float),
            decreases self.chars.len() - self.position,
        {
            if self.position >= self.chars.len() {
                break;
            }
            let c = self.chars[self.position];
            if is_decimal_digit(c) {
                text.push(c);
            } else if c == '.' && !is_float {
                is_float = true;
                text.push(c);
            } else {
                break;
            }
            proof {
                assert(text@ =~= t0 + st0.chars.subrange(st0.pos, self@.pos + 1));
            }
            self.bump();
        }
        is_float
    }

    /// A quoted text, its opening quote read: the chars up to the closing
    /// quote (or the end), which is read too.
    fn take_quoted(&mut self, quote: char) -> (r: Vec<char>)
        requires
            old(self).inv(),
        ensures
            old(self)@.pos <= final(self)@.pos,
            final(self)@.chars == old(self)@.chars,
            final(self).inv(),
            final(self).file() == old(self).file(),
            (r@, final(self)@) == quoted(old(self)@, quote),
    {
        let ghost st0 = self@;
        proof {
            lemma_find_char(st0.chars, st0.pos, quote);
        }
        let content = self.take_until(quote, true);
        if self.position < self.chars.len() {
            self.bump();
        }
        content
    }

    fn char_literal(&mut self) -> (r: Lexed)
        requires
            old(self).inv(),
        ensures
            old(self)@.pos <= final(self)@.pos,
            final(self)@.chars == old(self)@.chars,
            final(self).inv(),
            final(self).file() == old(self).file(),
            (r@, final(self)@) == char_literal(old(self)@, old(self).file()),
    {
        let content = self.take_quoted('\'');
        let width = utf8_length(&content);
        if width != 1 {
            let mut message = String::from_str("invalid character literal: '");
            message.append(string_of(&content).as_str());
            message.append("'");
            let m = describe_error(message.as_str(), self.current_file.as_str(), self.current_line, self.current_column);
            return Lexed::Failed(m);
        }
        proof {
            lemma_utf8_len(content@);
        }
        if self.current_column < 3 {
            return Lexed::Underflow;
        }
        let ch = content[0];
        proof {
            lemma_char_type_view(ch);
        }
        self.token(Type::Char(ch), self.current_line, self.current_column - 3)
    }

    fn string_literal(&mut self) -> (r: Lexed)
        requires
            old(self).inv(),
        ensures
            old(self)@.pos <= final(self)@.pos,
            final(self)@.chars == old(self)@.chars,
            final(self).inv(),
            final(self).file() == old(self).file(),
            (r@, final(self)@) == string_literal(old(self)@, old(self).file()),
    {
        let content = self.take_quoted('"');
        let width = utf8_length(&content);
        proof {
            lemma_utf8_len(content@);
            assert(width <= 4 * content.len());
        }
        if (self.current_column as u128) < width + 2 {
            return Lexed::Underflow;
        }
        let column = self.current_column - (width as usize) - 2;
        self.token(Type::String(string_of(&content)), self.current_line, column)
    }

    /// The rest of a `get` line.
    fn include_line(&mut self) -> (r: Lexed)
        requires
            old(self).inv(),
        ensures
            old(self)@.pos <= final(self)@.pos,
            final(self)@.chars == old(self)@.chars,
            final(self).inv(),
            final(self).file() == old(self).file(),
            (r@, final(self)@) == include_line(old(self)@),
    {
        self.skip_whitespace();
        let line = self.current_line;
        let column = self.current_column;
        let path = self.take_until('\n', false);
        Lexed::Include { path: string_of(&path), line, column }
    }

    /// The type of a word that is not `get`.
    fn word_type(w: &Vec<char>) -> (r: Type)
        ensures
            r@ == word_type(w@),
    {
        if same_text(w, "mut") {
            Type::Mut
        } else if same_text(w, "immut") {
            Type::Immut
        } else if same_text(w, "ref") {
            Type::Ref
        } else if same_text(w, "func") {
            Type::Func
        } else if same_text(w, "private") {
            Type::Private
        } else if same_text(w, "if") {
            Type::If
        } else if same_text(w, "else") {
            Type::Else
        } else if same_text(w, "while") {
            Type::While
        } else if same_text(w, "break") {
            Type::Break
        } else if same_text(w, "continue") {
            Type::Continue
        } else if same_text(w, "ret") {
            Type::Ret
        } else if same_text(w, "object") {
            Type::Object
        } else if same_text(w, "namespace") {
            Type::Namespace
        } else if same_text(w, "entry") {
            Type::Entry
        } else if same_text(w, "constructor") {
            Type::Constructor
        } else if same_text(w, "true") {
            Type::Boolean(true)
        } else if same_text(w, "false") {
            Type::Boolean(false)
        } else {
            Type::Identifier(string_of(w))
        }
    }

    fn word(&mut self, c: char) -> (r: Lexed)
        requires
            old(self).inv(),
        ensures
            old(self)@.pos <= final(self)@.pos,
            final(self)@.chars == old(self)@.chars,
            final(self).inv(),
            final(self).file() == old(self).file(),
            (r@, final(self)@) == word(old(self)@, c, old(self).file()),
    {
        let ghost st0 = self@;
        let mut w: Vec<char> = Vec::new();
        w.push(c);
        proof {
            assert(w@ == seq![c]);
        }
        self.take_word(&mut w);
        if same_text(&w, "get") {
            return self.include_line();
        }
        let width = utf8_length(&w);
        if (self.current_column as u128) < width {
            return Lexed::Underflow;
        }
        let column = self.current_column - (width as usize) + 1;
        self.token(Self::word_type(&w), self.current_line, column)
    }

    fn number(&mut self, c: char) -> (r: Lexed)
        requires
            old(self).inv(),
            is_digit(c),
        ensures
            old(self)@.pos <= final(self)@.pos,
            final(self)@.chars == old(self)@.chars,
            final(self).inv(),
            final(self).file() == old(self).file(),
            (r@, final(self)@) == number(old(self)@, c, old(self).file()),
    {
        let ghost st0 = self@;
        let mut text: Vec<char> = Vec::new();
        text.push(c);
        proof {
            assert(text@ == seq![c]);
            lemma_number_end(st0.chars, st0.pos, false);
        }
        let dot = self.take_number(&mut text);
        let column = self.current_column + 1 - text.len();
        if dot {
            return Lexed::Float { text: string_of(&text), line: self.current_line, column };
        }
        proof {
            assert forall|k: int| 0 <= k < text.len() implies is_digit(#[trigger] text@[k]) by {
                if k > 0 {
                    assert(text@[k] == st0.chars[st0.pos + k - 1]);
                }
            }
        }
        match integer_value(&text) {
            Some(value) => self.token(Type::Integer(value), self.current_line, column),
            None => {
                let mut message = String::from_str("invalid integer literal: ");
                message.append(string_of(&text).as_str());
                let m = describe_error(message.as_str(), self.current_file.as_str(), self.current_line, self.current_column);
                Lexed::Failed(m)
            },
        }
    }
}

impl Lexer {
    /// What follows once the char `c` is read.
    #[verifier::rlimit(60)]
    fn after_char(&mut self, c: char) -> (r: Lexed)
        requires
            old(self).inv(),
            old(self)@.line <= old(self)@.pos,
        ensures
            old(self)@.pos <= final(self)@.pos,
            final(self)@.chars == old(self)@.chars,
            final(self).inv(),
            final(self).file() == old(self).file(),
            (r@, final(self)@) == lex_char(old(self)@, c, old(self).file()),
    {
        let line = self.current_line;
        let column = self.current_column;
        if c == '\n' {
            self.current_line = self.current_line + 1;
            self.current_column = 0;
            return self.token(Type::EOL, self.current_line, 0);
        }
        if c == '|' && self.next_is('|') {
            self.bump();
            return self.token(Type::DoublePipe, line, column + 1);
        }
        if c == '&' && self.next_is('&') {
            self.bump();
            return self.token(Type::DoubleAmpersand, line, column + 1);
        }
        if c == '=' {
            if self.next_is('=') {
                self.bump();
                return self.token(Type::DoubleEquals, line, column + 1);
            }
            return self.token(Type::Equals, line, column);
        }
        if c == '!' {
            if self.next_is('=') {
                self.bump();
                return self.token(Type::BangEquals, line, column + 1);
            }
            return self.token(Type::Bang, line, column);
        }
        if c == '<' {
            if self.next_is('=') {
                self.bump();
                return self.token(Type::LessThanOrEqual, line, column + 1);
            }
            return self.token(Type::LessThan, line, column);
        }
        if c == '>' {
            if self.next_is('=') {
                self.bump();
                return self.token(Type::GreaterThanOrEqual, line, column + 1);
            }
            return self.token(Type::GreaterThan, line, column);
        }
        if c == ':' {
            if self.next_is(':') {
                self.bump();
                return self.token(Type::DoubleColon, line, column + 1);
            }
            if self.next_is('>') {
                self.bump();
                return self.token(Type::ColonArrow, line, column + 1);
            }
            return self.token(Type::Colon, line, column);
        }
        if let Some(t) = single_char(c) {
            return self.token(t, line, column);
        }
        if c == '\'' {
            return self.char_literal();
        }
        if c == '"' {
            return self.string_literal();
        }
        if is_alphabetic(c) || c == '_' {
            return self.word(c);
        }
        if is_decimal_digit(c) {
            return self.number(c);
        }
        let mut message = String::from_str("unexpected character: ");
        crate::text::push_char(&mut message, c);
        Lexed::Failed(describe_error(message.as_str(), self.current_file.as_str(), line, column))
    }

    /// One step: blanks skipped, then the next char read; a comment is
    /// passed over and the step goes on.
    fn next_token(&mut self) -> (r: Lexed)
        requires
            old(self).inv(),
        ensures
            final(self).inv(),
            final(self).file() == old(self).file(),
            (r@, final(self)@) == lex_step(old(self)@, old(self).file()),
            final(self)@.chars == old(self)@.chars,
            (r is Token && r->Token_0.token_type !is EOF) ==> old(self)@.pos < final(self)@.pos,
        decreases old(self)@.chars.len() - old(self)@.pos,
    {
        let ghost st0 = self@;
        proof {
            lemma_blank_end(st0.chars, st0.pos);
        }
        self.skip_whitespace();
        if self.position >= self.chars.len() {
            return self.token(Type::EOF, self.current_line, self.current_column + 1);
        }
        let c = self.chars[self.position];
        self.bump();
        if c == '#' {
            let ghost st2 = self@;
            proof {
                lemma_find_char(st2.chars, st2.pos, '\n');
            }
            self.take_until('\n', true);
            return self.next_token();
        }
        self.after_char(c)
    }

    /// Steps the lexer, adding each ordinary token to `tokens`, up to the
    /// first step that yields something else (the end token included),
    /// which it returns.
    pub fn tokenize(&mut self, tokens: &mut Vec<Token>) -> (r: Lexed)
        requires
            old(self).inv(),
        ensures
            final(self).inv(),
            final(self).file() == old(self).file(),
            ({
                let (ts, last, st) = lex_run(old(self)@, old(self).file());
                &&& tokens_view(final(tokens)@) == tokens_view(old(tokens)@) + ts
                &&& r@ == last
                &&& final(self)@ == st
            }),
    {
        let ghost st0 = self@;
        let ghost file = self.file();
        let ghost mut added: Seq<SpecToken> = Seq::empty();
        loop
            invariant
                self.inv(),
                self.file() == file,
                file == old(self).file(),
                st0 == old(self)@,
                tokens_view(tokens@) == tokens_view(old(tokens)@) + added,
                lex_run(st0, file) == ({
                    let (ts, last, st) = lex_run(self@, file);
                    (added + ts, last, st)
                }),
            decreases self@.chars.len() - self@.pos,
        {
            let ghost before = self@;
            let r = self.next_token();
            match r {
                Lexed::Token(t) => {
                    if matches!(t.token_type, Type::EOF) {
                        proof {
                            assert(added + Seq::<SpecToken>::empty() =~= added);
                        }
                        return Lexed::Token(t);
                    }
                    let ghost tv = t@;
                    let ghost tb = tokens@;
                    tokens.push(t);
                    proof {
                        assert(tokens@.drop_last() =~= tb);
                        assert(tokens_view(tokens@) == tokens_view(tb).push(tv));
                        assert(tokens_view(old(tokens)@) + added.push(tv) =~= (tokens_view(old(tokens)@) + added).push(tv));
                        let (ts, last, st) = lex_run(self@, file);
                        assert(added + (seq![tv] + ts) =~= added.push(tv) + ts);
                        added = added.push(tv);
                    }
                },
                _ => {
                    proof {
                        assert(added + Seq::<SpecToken>::empty() =~= added);
                    }
                    return r;
                },
            }
        }
    }
}

} // verus!
