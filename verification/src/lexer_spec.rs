//! What the lexer reads, stated over its state: the text as chars, the
//! position in it, and the line and column reached. `lex_step` is one call
//! of the lexer; `lex_run` is the calls up to the first that yields
//! something other than an ordinary token.
use vstd::prelude::*;
use crate::text::{alphabetic, alphanumeric, white_space, is_digit, place_message};
use crate::token::{SpecToken, SpecType};

verus! {

/// The lexer's state. The column is that of the last char read on the line
/// (0 before the first).
pub struct LState {
    pub chars: Seq<char>,
    pub pos: int,
    pub line: int,
    pub column: int,
}

/// What one step of the lexer yields.
pub enum SpecLexed {
    /// An ordinary token.
    Token(SpecToken),
    /// A `get` line: the path written after it, and the place of its token.
    Include { path: Seq<char>, line: int, column: int },
    /// A number with a decimal point: its text and the place of its token.
    Float { text: Seq<char>, line: int, column: int },
    /// A lexing error, with its message.
    Failed(Seq<char>),
    /// A token's column would come out below zero: its text is wider in
    /// UTF-8 bytes than the column reached.
    Underflow,
}

/// The lexer's state is in range; line and column grow by at most one for
/// each char read, and the text leaves room for the column to count.
pub open spec fn lwf(st: LState) -> bool {
    &&& 0 <= st.pos <= st.chars.len()
    &&& 1 <= st.line <= st.pos + 1
    &&& 0 <= st.column <= st.pos + 1
    &&& st.chars.len() + 2 <= usize::MAX
}

/// A blank: white space other than a line end.
pub open spec fn blank(c: char) -> bool {
    white_space(c) && c != '\n'
}

/// The position of the first non-blank char from `i` on.
pub open spec fn blank_end(s: Seq<char>, i: int) -> int
    decreases s.len() - i,
{
    if 0 <= i < s.len() && blank(s[i]) {
        blank_end(s, i + 1)
    } else {
        i
    }
}

/// The position of the first `c` from `i` on, or the end.
pub open spec fn find_char(s: Seq<char>, i: int, c: char) -> int
    decreases s.len() - i,
{
    if 0 <= i < s.len() && s[i] != c {
        find_char(s, i + 1, c)
    } else {
        i
    }
}

pub open spec fn word_char(c: char) -> bool {
    alphanumeric(c) || c == '_'
}

/// The position of the first char from `i` on that cannot continue a word.
pub open spec fn word_end(s: Seq<char>, i: int) -> int
    decreases s.len() - i,
{
    if 0 <= i < s.len() && word_char(s[i]) {
        word_end(s, i + 1)
    } else {
        i
    }
}

/// Where a number that goes on at `i` ends, and whether it holds a decimal
/// point (`dot` tells whether one was seen before `i`).
pub open spec fn number_end(s: Seq<char>, i: int, dot: bool) -> (int, bool)
    decreases s.len() - i,
{
    if 0 <= i < s.len() && is_digit(s[i]) {
        number_end(s, i + 1, dot)
    } else if 0 <= i < s.len() && s[i] == '.' && !dot {
        number_end(s, i + 1, true)
    } else {
        (i, dot)
    }
}

/// The number of bytes of a char in UTF-8.
pub open spec fn utf8_width(c: char) -> nat {
    if (c as u32) < 0x80 {
        1
    } else if (c as u32) < 0x800 {
        2
    } else if (c as u32) < 0x10000 {
        3
    } else {
        4
    }
}

/// The number of bytes of a text in UTF-8.
pub open spec fn utf8_len(s: Seq<char>) -> nat
    decreases s.len(),
{
    if s.len() == 0 {
        0
    } else {
        utf8_len(s.drop_last()) + utf8_width(s.last())
    }
}

/// The value of a string of decimal digits.
pub open spec fn digits_value(s: Seq<char>) -> nat
    decreases s.len(),
{
    if s.len() == 0 {
        0
    } else {
        digits_value(s.drop_last()) * 10 + ((s.last() as u32) - 48) as nat
    }
}

/// The kind of a word: a keyword, a boolean, or a name.
pub open spec fn word_type(w: Seq<char>) -> SpecType {
    if w == "mut"@ {
        SpecType::Mut
    } else if w == "immut"@ {
        SpecType::Immut
    } else if w == "ref"@ {
        SpecType::Ref
    } else if w == "func"@ {
        SpecType::Func
    } else if w == "private"@ {
        SpecType::Private
    } else if w == "if"@ {
        SpecType::If
    } else if w == "else"@ {
        SpecType::Else
    } else if w == "while"@ {
        SpecType::While
    } else if w == "break"@ {
        SpecType::Break
    } else if w == "continue"@ {
        SpecType::Continue
    } else if w == "ret"@ {
        SpecType::Ret
    } else if w == "object"@ {
        SpecType::Object
    } else if w == "namespace"@ {
        SpecType::Namespace
    } else if w == "entry"@ {
        SpecType::Entry
    } else if w == "constructor"@ {
        SpecType::Constructor
    } else if w == "true"@ {
        SpecType::Boolean(true)
    } else if w == "false"@ {
        SpecType::Boolean(false)
    } else {
        SpecType::Identifier(w)
    }
}

/// The token that a char stands for on its own, where it does.
pub open spec fn single_char_type(c: char) -> Option<SpecType> {
    if c == '+' {
        Some(SpecType::Plus)
    } else if c == '-' {
        Some(SpecType::Minus)
    } else if c == '*' {
        Some(SpecType::Star)
    } else if c == '/' {
        Some(SpecType::Slash)
    } else if c == '%' {
        Some(SpecType::Percent)
    } else if c == '^' {
        Some(SpecType::Exponent)
    } else if c == '(' {
        Some(SpecType::LParen)
    } else if c == ')' {
        Some(SpecType::RParen)
    } else if c == '{' {
        Some(SpecType::LBrace)
    } else if c == '}' {
        Some(SpecType::RBrace)
    } else if c == ',' {
        Some(SpecType::Comma)
    } else {
        None
    }
}

pub open spec fn token_at(t: SpecType, line: int, column: int, file: Seq<char>) -> SpecLexed {
    SpecLexed::Token(SpecToken { token_type: t, line: line as usize, column: column as usize, file })
}

/// The next char is `c`.
pub open spec fn next_is(st: LState, c: char) -> bool {
    0 <= st.pos < st.chars.len() && st.chars[st.pos] == c
}

/// One more char read on the line.
pub open spec fn bump(st: LState) -> LState {
    LState { pos: st.pos + 1, column: st.column + 1, ..st }
}

/// The blanks from the position on skipped, each counted as a column.
pub open spec fn skip_blank(st: LState) -> LState {
    let p = blank_end(st.chars, st.pos);
    LState { pos: p, column: st.column + (p - st.pos), ..st }
}

/// A token of the kind `t` at the place reached.
pub open spec fn one(st: LState, t: SpecType, file: Seq<char>) -> (SpecLexed, LState) {
    (token_at(t, st.line, st.column, file), st)
}

/// A token of two chars: the second is read, then the token is at its place.
pub open spec fn two(st: LState, t: SpecType, file: Seq<char>) -> (SpecLexed, LState) {
    (token_at(t, st.line, st.column + 1, file), bump(st))
}

/// A quoted text from the position on: the chars up to the closing quote
/// (or the end), the state after the closing quote, each char a column.
pub open spec fn quoted(st: LState, quote: char) -> (Seq<char>, LState) {
    let e = find_char(st.chars, st.pos, quote);
    let end = if e < st.chars.len() { e + 1 } else { e };
    (st.chars.subrange(st.pos, e), LState { pos: end, column: st.column + (end - st.pos), ..st })
}

/// A char literal, its opening quote read.
pub open spec fn char_literal(st: LState, file: Seq<char>) -> (SpecLexed, LState) {
    let (content, st2) = quoted(st, '\'');
    if utf8_len(content) != 1 {
        (
            SpecLexed::Failed(
                place_message(
                    "invalid character literal: '"@ + content + "'"@,
                    file,
                    st2.line as nat,
                    st2.column as nat,
                ),
            ),
            st2,
        )
    } else if st2.column < 3 {
        (SpecLexed::Underflow, st2)
    } else {
        (token_at(SpecType::Char(content[0]), st2.line, st2.column - 3, file), st2)
    }
}

/// A string literal, its opening quote read.
pub open spec fn string_literal(st: LState, file: Seq<char>) -> (SpecLexed, LState) {
    let (content, st2) = quoted(st, '"');
    if st2.column < utf8_len(content) + 2 {
        (SpecLexed::Underflow, st2)
    } else {
        (token_at(SpecType::String(content), st2.line, st2.column - utf8_len(content) - 2, file), st2)
    }
}

/// The rest of a `get` line: blanks skipped, then the path up to the line end.
pub open spec fn include_line(st: LState) -> (SpecLexed, LState) {
    let st1 = skip_blank(st);
    let e = find_char(st1.chars, st1.pos, '\n');
    (
        SpecLexed::Include { path: st1.chars.subrange(st1.pos, e), line: st1.line, column: st1.column },
        LState { pos: e, ..st1 },
    )
}

/// A word, its first char `c` read.
pub open spec fn word(st: LState, c: char, file: Seq<char>) -> (SpecLexed, LState) {
    let e = word_end(st.chars, st.pos);
    let w = seq![c] + st.chars.subrange(st.pos, e);
    let st2 = LState { pos: e, column: st.column + (e - st.pos), ..st };
    if w == "get"@ {
        include_line(st2)
    } else if st2.column < utf8_len(w) {
        (SpecLexed::Underflow, st2)
    } else {
        (token_at(word_type(w), st2.line, st2.column - utf8_len(w) + 1, file), st2)
    }
}

/// A number, its first digit `c` read.
pub open spec fn number(st: LState, c: char, file: Seq<char>) -> (SpecLexed, LState) {
    let (e, dot) = number_end(st.chars, st.pos, false);
    let text = seq![c] + st.chars.subrange(st.pos, e);
    let st2 = LState { pos: e, column: st.column + (e - st.pos), ..st };
    let column = st2.column - text.len() + 1;
    if dot {
        (SpecLexed::Float { text, line: st2.line, column }, st2)
    } else if digits_value(text) > i64::MAX {
        (
            SpecLexed::Failed(
                place_message("invalid integer literal: "@ + text, file, st2.line as nat, st2.column as nat),
            ),
            st2,
        )
    } else {
        (token_at(SpecType::Integer(digits_value(text) as i64), st2.line, column, file), st2)
    }
}

/// What follows once the char `c` is read (the column at it).
pub open spec fn lex_char(st: LState, c: char, file: Seq<char>) -> (SpecLexed, LState) {
    if c == '\n' {
        let st2 = LState { line: st.line + 1, column: 0, ..st };
        one(st2, SpecType::EOL, file)
    } else if c == '|' && next_is(st, '|') {
        two(st, SpecType::DoublePipe, file)
    } else if c == '&' && next_is(st, '&') {
        two(st, SpecType::DoubleAmpersand, file)
    } else if c == '=' {
        if next_is(st, '=') {
            two(st, SpecType::DoubleEquals, file)
        } else {
            one(st, SpecType::Equals, file)
        }
    } else if c == '!' {
        if next_is(st, '=') {
            two(st, SpecType::BangEquals, file)
        } else {
            one(st, SpecType::Bang, file)
        }
    } else if c == '<' {
        if next_is(st, '=') {
            two(st, SpecType::LessThanOrEqual, file)
        } else {
            one(st, SpecType::LessThan, file)
        }
    } else if c == '>' {
        if next_is(st, '=') {
            two(st, SpecType::GreaterThanOrEqual, file)
        } else {
            one(st, SpecType::GreaterThan, file)
        }
    } else if c == ':' {
        if next_is(st, ':') {
            two(st, SpecType::DoubleColon, file)
        } else if next_is(st, '>') {
            two(st, SpecType::ColonArrow, file)
        } else {
            one(st, SpecType::Colon, file)
        }
    } else if single_char_type(c) is Some {
        one(st, single_char_type(c)->0, file)
    } else if c == '\'' {
        char_literal(st, file)
    } else if c == '"' {
        string_literal(st, file)
    } else if alphabetic(c) || c == '_' {
        word(st, c, file)
    } else if is_digit(c) {
        number(st, c, file)
    } else {
        (
            SpecLexed::Failed(
                place_message("unexpected character: "@.push(c), file, st.line as nat, st.column as nat),
            ),
            st,
        )
    }
}

/// One step of the lexer: blanks skipped, then the next char read; a
/// comment (from `#` to the line end) is passed over and the step goes on.
/// At the end of the text it yields the end token, one column further on.
pub open spec fn lex_step(st: LState, file: Seq<char>) -> (SpecLexed, LState)
    decreases st.chars.len() - st.pos,
{
    let st1 = skip_blank(st);
    if 0 <= st1.pos < st1.chars.len() {
        let c = st1.chars[st1.pos];
        let st2 = bump(st1);
        if c == '#' {
            let e = find_char(st2.chars, st2.pos, '\n');
            proof {
                lemma_blank_end(st.chars, st.pos);
                lemma_find_char(st2.chars, st2.pos, '\n');
            }
            lex_step(LState { pos: e, column: st2.column + (e - st2.pos), ..st2 }, file)
        } else {
            lex_char(st2, c, file)
        }
    } else {
        (token_at(SpecType::EOF, st1.line, st1.column + 1, file), st1)
    }
}

/// The steps of the lexer from a state on, up to the first that yields
/// something other than an ordinary token (the end token included): the
/// tokens before it, what it yields, and the state after it.
pub open spec fn lex_run(st: LState, file: Seq<char>) -> (Seq<SpecToken>, SpecLexed, LState)
    decreases st.chars.len() - st.pos,
{
    let (r, st1) = lex_step(st, file);
    match r {
        SpecLexed::Token(t) => if t.token_type != SpecType::EOF && st1.chars == st.chars && st.pos < st1.pos <= st.chars.len() {
            let (ts, last, st2) = lex_run(st1, file);
            (seq![t] + ts, last, st2)
        } else {
            (Seq::empty(), r, st1)
        },
        _ => (Seq::empty(), r, st1),
    }
}

// ---------------------------------------------------------------------------
// Where the scans stop
// ---------------------------------------------------------------------------

pub proof fn lemma_blank_end(s: Seq<char>, i: int)
    ensures
        i <= blank_end(s, i),
        0 <= i <= s.len() ==> blank_end(s, i) <= s.len(),
    decreases s.len() - i,
{
    if 0 <= i < s.len() && blank(s[i]) {
        lemma_blank_end(s, i + 1);
    }
}

pub proof fn lemma_find_char(s: Seq<char>, i: int, c: char)
    ensures
        i <= find_char(s, i, c),
        0 <= i <= s.len() ==> find_char(s, i, c) <= s.len(),
        0 <= i <= s.len() ==> forall|k: int| i <= k < find_char(s, i, c) ==> s[k] != c,
        0 <= i && find_char(s, i, c) < s.len() ==> s[find_char(s, i, c)] == c,
    decreases s.len() - i,
{
    if 0 <= i < s.len() && s[i] != c {
        lemma_find_char(s, i + 1, c);
    }
}

pub proof fn lemma_word_end(s: Seq<char>, i: int)
    ensures
        i <= word_end(s, i),
        0 <= i <= s.len() ==> word_end(s, i) <= s.len(),
    decreases s.len() - i,
{
    if 0 <= i < s.len() && word_char(s[i]) {
        lemma_word_end(s, i + 1);
    }
}

pub proof fn lemma_number_end(s: Seq<char>, i: int, dot: bool)
    ensures
        i <= number_end(s, i, dot).0,
        0 <= i <= s.len() ==> number_end(s, i, dot).0 <= s.len(),
        0 <= i <= s.len() ==> forall|k: int|
            i <= k < number_end(s, i, dot).0 ==> is_digit(s[k]) || s[k] == '.',
        0 <= i <= s.len() && !number_end(s, i, dot).1 ==> forall|k: int|
            i <= k < number_end(s, i, dot).0 ==> is_digit(s[k]),
        dot ==> number_end(s, i, dot).1,
    decreases s.len() - i,
{
    if 0 <= i < s.len() && is_digit(s[i]) {
        lemma_number_end(s, i + 1, dot);
    } else if 0 <= i < s.len() && s[i] == '.' && !dot {
        lemma_number_end(s, i + 1, true);
    }
}

/// Every char takes at least one byte.
pub proof fn lemma_utf8_len(s: Seq<char>)
    ensures
        s.len() <= utf8_len(s) <= 4 * s.len(),
    decreases s.len(),
{
    if s.len() > 0 {
        lemma_utf8_len(s.drop_last());
    }
}

/// A longer prefix of digits has a value at least as large.
pub proof fn lemma_digits_value_prefix(s: Seq<char>, k: int)
    requires
        0 <= k <= s.len(),
    ensures
        digits_value(s.take(k)) <= digits_value(s),
    decreases s.len(),
{
    if k < s.len() {
        assert(s.drop_last().take(k) =~= s.take(k));
        lemma_digits_value_prefix(s.drop_last(), k);
    } else {
        assert(s.take(k) =~= s);
    }
}

} // verus!
