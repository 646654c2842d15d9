use crust::lexer::{Lexed, Lexer};
use crust::token::{Token, Type};

const FILE: &str = "test.cr";

fn tok(token_type: Type, line: usize, column: usize) -> Token {
    Token { token_type, line, column, file: FILE.to_string() }
}

/// Lexes text with no `get` line and no decimal number, up to its end.
fn lex(source: &str) -> Vec<Token> {
    let mut lexer = Lexer::new(source, FILE);
    let mut tokens = Vec::new();
    match lexer.tokenize(&mut tokens) {
        Lexed::Token(t) if t.token_type == Type::EOF => tokens,
        other => panic!("unexpected pause: {:?}", other),
    }
}

/// Lexes text up to its first pause, returning the tokens before it and the pause.
fn lex_until_pause(source: &str) -> (Vec<Token>, Lexed) {
    let mut lexer = Lexer::new(source, FILE);
    let mut tokens = Vec::new();
    let pause = lexer.tokenize(&mut tokens);
    (tokens, pause)
}

fn kinds(tokens: &[Token]) -> Vec<Type> {
    tokens.iter().map(|t| t.token_type.duplicate()).collect()
}

#[test]
fn double_equals_is_placed_at_its_second_char() {
    assert_eq!(
        lex("a == b"),
        vec![
            tok(Type::Identifier("a".to_string()), 1, 1),
            tok(Type::DoubleEquals, 1, 4),
            tok(Type::Identifier("b".to_string()), 1, 6),
        ]
    );
}

#[test]
fn keywords_booleans_and_names() {
    let tokens = lex(
        "mut immut ref func private if else while break continue ret object namespace entry constructor true false name_1 _x",
    );
    assert_eq!(
        kinds(&tokens),
        vec![
            Type::Mut,
            Type::Immut,
            Type::Ref,
            Type::Func,
            Type::Private,
            Type::If,
            Type::Else,
            Type::While,
            Type::Break,
            Type::Continue,
            Type::Ret,
            Type::Object,
            Type::Namespace,
            Type::Entry,
            Type::Constructor,
            Type::Boolean(true),
            Type::Boolean(false),
            Type::Identifier("name_1".to_string()),
            Type::Identifier("_x".to_string()),
        ]
    );
}

#[test]
fn operators_and_punctuation() {
    let tokens = lex("+ - * / % ^ ( ) { } , : :: :> ! != < <= > >= = && ||");
    assert_eq!(
        kinds(&tokens),
        vec![
            Type::Plus,
            Type::Minus,
            Type::Star,
            Type::Slash,
            Type::Percent,
            Type::Exponent,
            Type::LParen,
            Type::RParen,
            Type::LBrace,
            Type::RBrace,
            Type::Comma,
            Type::Colon,
            Type::DoubleColon,
            Type::ColonArrow,
            Type::Bang,
            Type::BangEquals,
            Type::LessThan,
            Type::LessThanOrEqual,
            Type::GreaterThan,
            Type::GreaterThanOrEqual,
            Type::Equals,
            Type::DoubleAmpersand,
            Type::DoublePipe,
        ]
    );
}

#[test]
fn line_ends_start_a_new_line_at_column_zero() {
    assert_eq!(
        lex("a\nb"),
        vec![
            tok(Type::Identifier("a".to_string()), 1, 1),
            tok(Type::EOL, 2, 0),
            tok(Type::Identifier("b".to_string()), 2, 1),
        ]
    );
}

#[test]
fn comments_run_to_the_line_end() {
    assert_eq!(
        lex("x # a comment\ny"),
        vec![
            tok(Type::Identifier("x".to_string()), 1, 1),
            tok(Type::EOL, 2, 0),
            tok(Type::Identifier("y".to_string()), 2, 1),
        ]
    );
}

#[test]
fn string_and_char_literals() {
    assert_eq!(
        lex("s = \"hi there\""),
        vec![
            tok(Type::Identifier("s".to_string()), 1, 1),
            tok(Type::Equals, 1, 3),
            tok(Type::String("hi there".to_string()), 1, 4),
        ]
    );
    assert_eq!(lex("'x'"), vec![tok(Type::Char('x'), 1, 0)]);
}

#[test]
fn integers_up_to_the_largest_i64() {
    assert_eq!(
        lex("x = 12345"),
        vec![
            tok(Type::Identifier("x".to_string()), 1, 1),
            tok(Type::Equals, 1, 3),
            tok(Type::Integer(12345), 1, 5),
        ]
    );
    assert_eq!(lex("9223372036854775807"), vec![tok(Type::Integer(i64::MAX), 1, 1)]);
}

#[test]
fn an_integer_too_large_is_an_error() {
    let (tokens, pause) = lex_until_pause("9223372036854775808");
    assert!(tokens.is_empty());
    assert_eq!(
        pause,
        Lexed::Failed("invalid integer literal: 9223372036854775808 at test.cr 1:19".to_string())
    );
}

#[test]
fn a_decimal_number_pauses_with_its_text() {
    let (tokens, pause) = lex_until_pause("x = 1.5");
    assert_eq!(kinds(&tokens), vec![Type::Identifier("x".to_string()), Type::Equals]);
    assert_eq!(pause, Lexed::Float { text: "1.5".to_string(), line: 1, column: 5 });
}

#[test]
fn a_second_decimal_point_is_an_unexpected_character() {
    let mut lexer = Lexer::new("2.5.1", FILE);
    let mut tokens = Vec::new();
    assert_eq!(
        lexer.tokenize(&mut tokens),
        Lexed::Float { text: "2.5".to_string(), line: 1, column: 1 }
    );
    assert_eq!(
        lexer.tokenize(&mut tokens),
        Lexed::Failed("unexpected character: . at test.cr 1:4".to_string())
    );
}

#[test]
fn a_get_line_pauses_with_its_path_then_goes_on() {
    let mut lexer = Lexer::new("get lib/util.cr\nx", FILE);
    let mut tokens = Vec::new();
    assert_eq!(
        lexer.tokenize(&mut tokens),
        Lexed::Include { path: "lib/util.cr".to_string(), line: 1, column: 4 }
    );
    assert!(tokens.is_empty());
    match lexer.tokenize(&mut tokens) {
        Lexed::Token(t) => assert_eq!(t, tok(Type::EOF, 2, 2)),
        other => panic!("unexpected pause: {:?}", other),
    }
    assert_eq!(
        tokens,
        vec![tok(Type::EOL, 2, 0), tok(Type::Identifier("x".to_string()), 2, 1)]
    );
}

#[test]
fn unexpected_characters() {
    assert_eq!(
        lex_until_pause("@").1,
        Lexed::Failed("unexpected character: @ at test.cr 1:1".to_string())
    );
    assert_eq!(
        lex_until_pause("a | b").1,
        Lexed::Failed("unexpected character: | at test.cr 1:3".to_string())
    );
    assert_eq!(
        lex_until_pause("a & b").1,
        Lexed::Failed("unexpected character: & at test.cr 1:3".to_string())
    );
}

#[test]
fn char_literals_of_other_than_one_byte_are_errors() {
    assert_eq!(
        lex_until_pause("'ab'").1,
        Lexed::Failed("invalid character literal: 'ab' at test.cr 1:4".to_string())
    );
    assert_eq!(
        lex_until_pause("''").1,
        Lexed::Failed("invalid character literal: '' at test.cr 1:2".to_string())
    );
    assert_eq!(
        lex_until_pause("'\u{e9}'").1,
        Lexed::Failed("invalid character literal: '\u{e9}' at test.cr 1:3".to_string())
    );
}

#[test]
fn columns_that_would_go_below_zero() {
    assert_eq!(lex_until_pause("'a").1, Lexed::Underflow);
    assert_eq!(lex_until_pause("\u{e9}").1, Lexed::Underflow);
    assert_eq!(lex_until_pause("\"\u{e9}\u{e9}\"").1, Lexed::Underflow);
}

#[test]
fn a_wide_word_far_enough_along_the_line() {
    assert_eq!(lex("  \u{e9}"), vec![tok(Type::Identifier("\u{e9}".to_string()), 1, 2)]);
}

#[test]
fn the_end_token_is_one_column_past_the_text() {
    let (tokens, pause) = lex_until_pause("ab");
    assert_eq!(tokens, vec![tok(Type::Identifier("ab".to_string()), 1, 1)]);
    assert_eq!(pause, Lexed::Token(tok(Type::EOF, 1, 3)));
    assert_eq!(lex_until_pause("").1, Lexed::Token(tok(Type::EOF, 1, 1)));
}

#[test]
fn skip_whitespace_counts_columns_but_not_line_ends() {
    let mut lexer = Lexer::new(" \t x", FILE);
    lexer.skip_whitespace();
    let mut tokens = Vec::new();
    lexer.tokenize(&mut tokens);
    assert_eq!(tokens, vec![tok(Type::Identifier("x".to_string()), 1, 4)]);

    let mut lexer = Lexer::new("  \nx", FILE);
    lexer.skip_whitespace();
    let mut tokens = Vec::new();
    lexer.tokenize(&mut tokens);
    assert_eq!(tokens[0], tok(Type::EOL, 2, 0));
}

#[test]
fn the_lexer_knows_its_file() {
    let lexer = Lexer::new("", "dir/main.cr");
    assert_eq!(lexer.current_file(), "dir/main.cr");
    assert_eq!(
        lexer.missing_file_message("lib.cr", 3, 4),
        "file not found: lib.cr at dir/main.cr 3:4"
    );
}

#[test]
fn each_token_is_in_the_file_on_the_line_reached() {
    let tokens = lex("a\n\"x\ny\" b\n\nc");
    assert!(tokens.iter().all(|t| t.file == FILE));
    let places: Vec<(usize, usize)> = tokens.iter().map(|t| (t.line, t.column)).collect();
    assert_eq!(places, vec![(1, 1), (2, 0), (2, 0), (2, 7), (3, 0), (4, 0), (4, 1)]);
}
