//! What holds of every run of the lexer: it keeps its state in range, never
//! goes back, moves past at least one char for each token it yields, and
//! yields the end token only at the end of the text.
use vstd::prelude::*;
use crate::lexer_spec::{
    LState, SpecLexed, lwf, blank_end, find_char, word_end, skip_blank, bump, next_is, quoted, include_line,
    word_type, single_char_type, lex_char, lex_step, lex_run, lemma_blank_end, lemma_find_char,
    lemma_word_end, lemma_number_end,
};
use crate::token::{SpecToken, SpecType};

verus! {

/// A step's outcome is not the end token.
pub open spec fn not_end(r: SpecLexed) -> bool {
    r is Token ==> r->Token_0.token_type != SpecType::EOF
}

/// The state after a step: in range, over the same text, not behind.
pub open spec fn moved_on(st: LState, st1: LState) -> bool {
    &&& lwf(st1)
    &&& st1.chars == st.chars
    &&& st.pos <= st1.pos
}

proof fn lemma_word_type_not_end(w: Seq<char>)
    ensures
        word_type(w) != SpecType::EOF,
{
}

proof fn lemma_quoted(st: LState, q: char)
    requires
        lwf(st),
    ensures
        moved_on(st, quoted(st, q).1),
        quoted(st, q).1.line == st.line,
{
    lemma_find_char(st.chars, st.pos, q);
}

proof fn lemma_include_line(st: LState)
    requires
        lwf(st),
    ensures
        moved_on(st, include_line(st).1),
        include_line(st).0 is Include,
{
    lemma_blank_end(st.chars, st.pos);
    let st1 = skip_blank(st);
    lemma_find_char(st1.chars, st1.pos, '\n');
}

/// What follows a char keeps the state in range and yields no end token.
#[verifier::rlimit(40)]
proof fn lemma_lex_char(st: LState, c: char, file: Seq<char>)
    requires
        lwf(st),
        st.line <= st.pos,
    ensures
        moved_on(st, lex_char(st, c, file).1),
        not_end(lex_char(st, c, file).0),
{
    if c == '\n' {
    } else if (c == '|' && next_is(st, '|')) || (c == '&' && next_is(st, '&')) || c == '=' || c == '!'
        || c == '<' || c == '>' || c == ':' || single_char_type(c) is Some {
    } else if c == '\'' {
        lemma_quoted(st, '\'');
    } else if c == '"' {
        lemma_quoted(st, '"');
    } else if crate::text::alphabetic(c) || c == '_' {
        lemma_word_end(st.chars, st.pos);
        let e = word_end(st.chars, st.pos);
        let st2 = LState { pos: e, column: st.column + (e - st.pos), ..st };
        let w = seq![c] + st.chars.subrange(st.pos, e);
        if w == "get"@ {
            lemma_include_line(st2);
        } else {
            lemma_word_type_not_end(w);
        }
    } else if crate::text::is_digit(c) {
        lemma_number_end(st.chars, st.pos, false);
    }
}

/// One step of the lexer keeps its state in range and never goes back; a
/// step that yields anything but the end token moves past at least one char,
/// and the end token comes only once the text is read to its end.
pub proof fn lemma_lex_step(st: LState, file: Seq<char>)
    requires
        lwf(st),
    ensures
        moved_on(st, lex_step(st, file).1),
        not_end(lex_step(st, file).0) ==> st.pos < lex_step(st, file).1.pos,
        !not_end(lex_step(st, file).0) ==> lex_step(st, file).1.pos == st.chars.len(),
    decreases st.chars.len() - st.pos,
{
    lemma_blank_end(st.chars, st.pos);
    let st1 = skip_blank(st);
    if 0 <= st1.pos < st1.chars.len() {
        let c = st1.chars[st1.pos];
        let st2 = bump(st1);
        if c == '#' {
            lemma_find_char(st2.chars, st2.pos, '\n');
            let e = find_char(st2.chars, st2.pos, '\n');
            lemma_lex_step(LState { pos: e, column: st2.column + (e - st2.pos), ..st2 }, file);
        } else {
            lemma_lex_char(st2, c, file);
        }
    }
}

/// The lexer's run stops only at the end of the text or at something other
/// than a token, keeps its state in range, and adds no end token on the way.
pub proof fn lemma_lex_run(st: LState, file: Seq<char>)
    requires
        lwf(st),
    ensures
        ({
            let (ts, last, st1) = lex_run(st, file);
            &&& moved_on(st, st1)
            &&& (last is Token ==> last->Token_0.token_type == SpecType::EOF && st1.pos == st.chars.len())
            &&& forall|i: int| 0 <= i < ts.len() ==> #[trigger] ts[i].token_type != SpecType::EOF
        }),
    decreases st.chars.len() - st.pos,
{
    lemma_lex_step(st, file);
    let (r, st1) = lex_step(st, file);
    if let SpecLexed::Token(t) = r {
        if t.token_type != SpecType::EOF {
            lemma_lex_run(st1, file);
            let (ts, last, st2) = lex_run(st1, file);
            assert forall|i: int| 0 <= i < (seq![t] + ts).len() implies #[trigger] (seq![t] + ts)[i].token_type
                != SpecType::EOF by {
                if i > 0 {
                    assert((seq![t] + ts)[i] == ts[i - 1]);
                }
            }
        }
    }
}

/// The number of line-end tokens among the tokens.
pub open spec fn eol_count(ts: Seq<SpecToken>) -> nat
    decreases ts.len(),
{
    if ts.len() == 0 {
        0
    } else {
        eol_count(ts.drop_last()) + if ts.last().token_type == SpecType::EOL { 1nat } else { 0nat }
    }
}

proof fn lemma_eol_count_add(a: Seq<SpecToken>, b: Seq<SpecToken>)
    ensures
        eol_count(a + b) == eol_count(a) + eol_count(b),
    decreases b.len(),
{
    if b.len() == 0 {
        assert(a + b =~= a);
    } else {
        assert((a + b).drop_last() =~= a + b.drop_last());
        lemma_eol_count_add(a, b.drop_last());
    }
}

/// Where a step places what it yields: a token is in the lexer's file; a
/// line end starts the next line, at column 0; anything else stays on the
/// line reached.
pub proof fn lemma_lex_step_place(st: LState, file: Seq<char>)
    requires
        lwf(st),
    ensures
        ({
            let (r, st1) = lex_step(st, file);
            &&& r is Token ==> r->Token_0.file == file
            &&& (r is Token && r->Token_0.token_type == SpecType::EOL) ==> {
                &&& r->Token_0.line == st.line + 1
                &&& r->Token_0.column == 0
                &&& st1.line == st.line + 1
            }
            &&& !(r is Token && r->Token_0.token_type == SpecType::EOL) ==> {
                &&& st1.line == st.line
                &&& r is Token ==> r->Token_0.line == st.line
            }
        }),
    decreases st.chars.len() - st.pos,
{
    lemma_blank_end(st.chars, st.pos);
    let st1 = skip_blank(st);
    if 0 <= st1.pos < st1.chars.len() {
        let c = st1.chars[st1.pos];
        let st2 = bump(st1);
        if c == '#' {
            lemma_find_char(st2.chars, st2.pos, '\n');
            let e = find_char(st2.chars, st2.pos, '\n');
            lemma_lex_step_place(LState { pos: e, column: st2.column + (e - st2.pos), ..st2 }, file);
        } else {
            lemma_lex_char(st2, c, file);
            if c != '\n' && (crate::text::alphabetic(c) || c == '_') && !((c == '|' && next_is(st2, '|'))
                || (c == '&' && next_is(st2, '&')) || c == '=' || c == '!' || c == '<' || c == '>' || c
                == ':' || single_char_type(c) is Some || c == '\'' || c == '"') {
                lemma_word_end(st2.chars, st2.pos);
                let e = word_end(st2.chars, st2.pos);
                let w = seq![c] + st2.chars.subrange(st2.pos, e);
                lemma_word_type_not_end(w);
                assert(word_type(w) != SpecType::EOL);
            }
        }
    }
}

/// Where a run places its tokens: each is in the lexer's file, on the line
/// reached plus the line ends read up to it (itself included), and a line
/// end is at column 0; the end token, where the run reaches it, is on the
/// line the run ends on.
pub proof fn lemma_lex_run_places(st: LState, file: Seq<char>)
    requires
        lwf(st),
    ensures
        ({
            let (ts, last, st1) = lex_run(st, file);
            &&& forall|i: int| 0 <= i < ts.len() ==> {
                &&& (#[trigger] ts[i]).file == file
                &&& ts[i].line == st.line + eol_count(ts.take(i + 1))
                &&& ts[i].token_type == SpecType::EOL ==> ts[i].column == 0
            }
            &&& st1.line == st.line + eol_count(ts)
            &&& last is Token ==> last->Token_0.file == file && last->Token_0.line == st1.line
        }),
    decreases st.chars.len() - st.pos,
{
    lemma_lex_step(st, file);
    lemma_lex_step_place(st, file);
    let (r, st1) = lex_step(st, file);
    if let SpecLexed::Token(t) = r {
        if t.token_type != SpecType::EOF {
            lemma_lex_run_places(st1, file);
            let (ts, last, st2) = lex_run(st1, file);
            let all = seq![t] + ts;
            assert(eol_count(seq![t]) == (if t.token_type == SpecType::EOL { 1nat } else { 0nat })) by {
                assert(seq![t].drop_last() =~= Seq::<SpecToken>::empty());
                assert(seq![t].last() == t);
                assert(eol_count(Seq::<SpecToken>::empty()) == 0);
            }
            lemma_eol_count_add(seq![t], ts);
            assert forall|i: int| 0 <= i < all.len() implies {
                &&& (#[trigger] all[i]).file == file
                &&& all[i].line == st.line + eol_count(all.take(i + 1))
                &&& all[i].token_type == SpecType::EOL ==> all[i].column == 0
            } by {
                if i == 0 {
                    assert(all.take(1) =~= seq![t]);
                } else {
                    assert(all[i] == ts[i - 1]);
                    assert(all.take(i + 1) =~= seq![t] + ts.take(i));
                    lemma_eol_count_add(seq![t], ts.take(i));
                }
            }
        } else {
            assert(eol_count(Seq::<SpecToken>::empty()) == 0);
        }
    }
}

/// White space other than a line feed is passed over: where the next char is
/// white space (a carriage return, a space, a tab, ...) but no line feed, a
/// step yields just what the step from the char after it (one column on)
/// yields.
pub proof fn lemma_white_space_skipped(st: LState, file: Seq<char>)
    requires
        0 <= st.pos < st.chars.len(),
        crate::text::white_space(st.chars[st.pos]),
        st.chars[st.pos] != '\n',
    ensures
        lex_step(st, file) == lex_step(bump(st), file),
{
    assert(blank_end(st.chars, st.pos) == blank_end(st.chars, st.pos + 1));
    assert(skip_blank(st) == skip_blank(bump(st)));
}

/// The tokens of two chars: `==` `!=` `<=` `>=` `::` `:>` `&&` `||`.
pub open spec fn pair_token(c: char, d: char) -> Option<SpecType> {
    if c == '=' && d == '=' {
        Some(SpecType::DoubleEquals)
    } else if c == '!' && d == '=' {
        Some(SpecType::BangEquals)
    } else if c == '<' && d == '=' {
        Some(SpecType::LessThanOrEqual)
    } else if c == '>' && d == '=' {
        Some(SpecType::GreaterThanOrEqual)
    } else if c == ':' && d == ':' {
        Some(SpecType::DoubleColon)
    } else if c == ':' && d == '>' {
        Some(SpecType::ColonArrow)
    } else if c == '&' && d == '&' {
        Some(SpecType::DoubleAmpersand)
    } else if c == '|' && d == '|' {
        Some(SpecType::DoublePipe)
    } else {
        None
    }
}

/// The tokens of one char (where no two-char token starts there).
pub open spec fn char_token(c: char) -> Option<SpecType> {
    if c == '=' {
        Some(SpecType::Equals)
    } else if c == '!' {
        Some(SpecType::Bang)
    } else if c == '<' {
        Some(SpecType::LessThan)
    } else if c == '>' {
        Some(SpecType::GreaterThan)
    } else if c == ':' {
        Some(SpecType::Colon)
    } else if c == '+' {
        Some(SpecType::Plus)
    } else if c == '-' {
        Some(SpecType::Minus)
    } else if c == '*' {
        Some(SpecType::Star)
    } else if c == '/' {
        Some(SpecType::Slash)
    } else if c == '%' {
        Some(SpecType::Percent)
    } else if c == '^' {
        Some(SpecType::Exponent)
    } else if c == '(' {
        Some(SpecType::LParen)
    } else if c == ')' {
        Some(SpecType::RParen)
    } else if c == '{' {
        Some(SpecType::LBrace)
    } else if c == '}' {
        Some(SpecType::RBrace)
    } else if c == ',' {
        Some(SpecType::Comma)
    } else {
        None
    }
}

/// A token's model at a place in a file.
pub open spec fn placed(t: SpecType, line: int, column: int, file: Seq<char>) -> SpecLexed {
    SpecLexed::Token(SpecToken { token_type: t, line: line as usize, column: column as usize, file })
}

/// Operators and punctuation: where the next char is not white space, a
/// two-char operator there is one token, placed at its second char; else a
/// one-char operator or bracket is one token, placed at it; a line feed is a
/// line end, at column 0 of the next line.
pub proof fn lemma_operator_tokens(st: LState, file: Seq<char>)
    requires
        lwf(st),
        st.pos < st.chars.len(),
        !crate::text::white_space(st.chars[st.pos]),
    ensures
        ({
            let c = st.chars[st.pos];
            let two = st.pos + 1 < st.chars.len() && pair_token(c, st.chars[st.pos + 1]) is Some;
            &&& two ==> lex_step(st, file) == (
                placed(pair_token(c, st.chars[st.pos + 1])->Some_0, st.line, st.column + 2, file),
                LState { pos: st.pos + 2, column: st.column + 2, ..st },
            )
            &&& !two && char_token(c) is Some ==> lex_step(st, file) == (
                placed(char_token(c)->Some_0, st.line, st.column + 1, file),
                LState { pos: st.pos + 1, column: st.column + 1, ..st },
            )
            &&& c == '\n' ==> lex_step(st, file) == (
                placed(SpecType::EOL, st.line + 1, 0, file),
                LState { pos: st.pos + 1, line: st.line + 1, column: 0, ..st },
            )
        }),
{
    assert(blank_end(st.chars, st.pos) == st.pos);
    assert(skip_blank(st) == st);
}

/// The keywords and the token each is: `mut` `immut` `ref` `func` `private`
/// `if` `else` `while` `break` `continue` `ret` `object` `namespace` `entry`
/// `constructor`, and `true` and `false` as booleans.
pub open spec fn keyword_kind(w: Seq<char>) -> Option<SpecType> {
    if w == "mut"@ {
        Some(SpecType::Mut)
    } else if w == "immut"@ {
        Some(SpecType::Immut)
    } else if w == "ref"@ {
        Some(SpecType::Ref)
    } else if w == "func"@ {
        Some(SpecType::Func)
    } else if w == "private"@ {
        Some(SpecType::Private)
    } else if w == "if"@ {
        Some(SpecType::If)
    } else if w == "else"@ {
        Some(SpecType::Else)
    } else if w == "while"@ {
        Some(SpecType::While)
    } else if w == "break"@ {
        Some(SpecType::Break)
    } else if w == "continue"@ {
        Some(SpecType::Continue)
    } else if w == "ret"@ {
        Some(SpecType::Ret)
    } else if w == "object"@ {
        Some(SpecType::Object)
    } else if w == "namespace"@ {
        Some(SpecType::Namespace)
    } else if w == "entry"@ {
        Some(SpecType::Entry)
    } else if w == "constructor"@ {
        Some(SpecType::Constructor)
    } else if w == "true"@ {
        Some(SpecType::Boolean(true))
    } else if w == "false"@ {
        Some(SpecType::Boolean(false))
    } else {
        None
    }
}

proof fn lemma_word_end_at(s: Seq<char>, i: int, e: int)
    requires
        0 <= i <= e <= s.len(),
        forall|k: int| i <= k < e ==> crate::lexer_spec::word_char(#[trigger] s[k]),
        e == s.len() || !crate::lexer_spec::word_char(s[e]),
    ensures
        word_end(s, i) == e,
    decreases e - i,
{
    if i < e {
        lemma_word_end_at(s, i + 1, e);
    }
}

proof fn lemma_ascii_utf8_len(w: Seq<char>)
    requires
        forall|k: int| 0 <= k < w.len() ==> (#[trigger] w[k] as u32) < 128,
    ensures
        crate::lexer_spec::utf8_len(w) == w.len(),
    decreases w.len(),
{
    if w.len() > 0 {
        assert forall|k: int| 0 <= k < w.drop_last().len() implies (#[trigger] w.drop_last()[k] as u32) < 128 by {
            assert(w.drop_last()[k] == w[k]);
        }
        assert((w[w.len() - 1] as u32) < 128);
        lemma_ascii_utf8_len(w.drop_last());
    }
}

proof fn lemma_keywords_ascii(w: Seq<char>)
    requires
        keyword_kind(w) is Some,
    ensures
        forall|k: int| 0 <= k < w.len() ==> (#[trigger] w[k] as u32) < 128,
        w != "get"@,
        crate::lexer_spec::word_type(w) == keyword_kind(w)->Some_0,
        w.len() > 0 && 'a' <= w[0] && w[0] <= 'z',
{
    reveal_strlit("mut");
    reveal_strlit("immut");
    reveal_strlit("ref");
    reveal_strlit("func");
    reveal_strlit("private");
    reveal_strlit("if");
    reveal_strlit("else");
    reveal_strlit("while");
    reveal_strlit("break");
    reveal_strlit("continue");
    reveal_strlit("ret");
    reveal_strlit("object");
    reveal_strlit("namespace");
    reveal_strlit("entry");
    reveal_strlit("constructor");
    reveal_strlit("true");
    reveal_strlit("false");
    reveal_strlit("get");
    if w.len() == 3 {
        assert(w[0] != 'g');
        assert("get"@[0] == 'g');
    }
}

/// Keywords: a keyword that starts at a char that is not white space and is
/// not followed by a char that can go on a word is one token of its kind,
/// placed at its first char.
pub proof fn lemma_keyword_tokens(st: LState, e: int, file: Seq<char>)
    requires
        lwf(st),
        st.pos < e <= st.chars.len(),
        !crate::text::white_space(st.chars[st.pos]),
        crate::text::alphabetic(st.chars[st.pos]),
        forall|k: int| st.pos < k < e ==> crate::lexer_spec::word_char(#[trigger] st.chars[k]),
        e == st.chars.len() || !crate::lexer_spec::word_char(st.chars[e]),
        keyword_kind(st.chars.subrange(st.pos, e)) is Some,
    ensures
        lex_step(st, file) == (
            placed(keyword_kind(st.chars.subrange(st.pos, e))->Some_0, st.line, st.column + 1, file),
            LState { pos: e, column: st.column + (e - st.pos), ..st },
        ),
{
    let w = st.chars.subrange(st.pos, e);
    let c = st.chars[st.pos];
    assert(blank_end(st.chars, st.pos) == st.pos);
    assert(skip_blank(st) == st);
    lemma_keywords_ascii(w);
    lemma_word_end_at(st.chars, st.pos + 1, e);
    assert(seq![c] + st.chars.subrange(st.pos + 1, e) =~= w);
    lemma_ascii_utf8_len(w);
    assert(w[0] == c);
    assert('a' <= c && c <= 'z');
    assert(crate::lexer_spec::single_char_type(c) is None);
}

/// Comments: where a `#` stands (not white space), everything up to the
/// next line feed (or the end) is passed over, a column for each char, and
/// the step yields what the step from there yields.
pub proof fn lemma_comment_skipped(st: LState, e: int, file: Seq<char>)
    requires
        lwf(st),
        st.pos < e <= st.chars.len(),
        st.chars[st.pos] == '#',
        !crate::text::white_space('#'),
        forall|k: int| st.pos < k < e ==> #[trigger] st.chars[k] != '\n',
        e == st.chars.len() || st.chars[e] == '\n',
    ensures
        lex_step(st, file) == lex_step(LState { pos: e, column: st.column + (e - st.pos), ..st }, file),
{
    assert(blank_end(st.chars, st.pos) == st.pos);
    assert(skip_blank(st) == st);
    lemma_find_char_at(st.chars, st.pos + 1, e, '\n');
}

proof fn lemma_find_char_at(s: Seq<char>, i: int, e: int, c: char)
    requires
        0 <= i <= e <= s.len(),
        forall|k: int| i <= k < e ==> #[trigger] s[k] != c,
        e == s.len() || s[e] == c,
    ensures
        find_char(s, i, c) == e,
    decreases e - i,
{
    if i < e {
        lemma_find_char_at(s, i + 1, e, c);
    }
}

/// String literals: where a `"` stands (not white space) and the next `"`
/// closes it with only ASCII chars between, the string is those chars, one
/// token placed a column before the opening quote, and the lexer goes on
/// after the closing quote.
pub proof fn lemma_string_literal(st: LState, e: int, file: Seq<char>)
    requires
        lwf(st),
        st.pos < e < st.chars.len(),
        st.chars[st.pos] == '"',
        !crate::text::white_space('"'),
        forall|k: int| st.pos < k < e ==> #[trigger] st.chars[k] != '"' && (st.chars[k] as u32) < 128,
        st.chars[e] == '"',
    ensures
        lex_step(st, file) == (
            placed(SpecType::String(st.chars.subrange(st.pos + 1, e)), st.line, st.column, file),
            LState { pos: e + 1, column: st.column + (e + 1 - st.pos), ..st },
        ),
{
    assert(blank_end(st.chars, st.pos) == st.pos);
    assert(skip_blank(st) == st);
    lemma_find_char_at(st.chars, st.pos + 1, e, '"');
    let w = st.chars.subrange(st.pos + 1, e);
    assert forall|k: int| 0 <= k < w.len() implies (#[trigger] w[k] as u32) < 128 by {
        assert(w[k] == st.chars[st.pos + 1 + k]);
    }
    lemma_ascii_utf8_len(w);
}

} // verus!
