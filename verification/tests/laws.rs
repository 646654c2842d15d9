use crust::ast::Program;
use crust::lexer::{Lexed, Lexer};
use crust::parser::Parser;
use crust::token::{Token, Type};

const SOURCE: &str = "# a sample\nobject Counter {\n mut count\n constructor() {\n  this:>count = 0\n }\n func bump(:ref by) {\n  this:>count = this:>count + by\n }\n}\nnamespace util {\n func twice(x) {\n  ret x * 2\n }\n}\nentry {\n mut c = Counter::construct()\n while c:>count < 10 {\n  c:>bump(util::twice(1))\n }\n std::println(\"done {c}\")\n}\n";

fn lex_all(source: &str) -> (Vec<Token>, Token) {
    let mut lexer = Lexer::new(source, "sample.cr");
    let mut tokens = Vec::new();
    match lexer.tokenize(&mut tokens) {
        Lexed::Token(end) => (tokens, end),
        other => panic!("unexpected pause: {:?}", other),
    }
}

#[test]
fn a_run_of_the_lexer_ends_with_the_end_token_only() {
    let (tokens, end) = lex_all(SOURCE);
    assert_eq!(end.token_type, Type::EOF);
    assert_eq!(end.line, 23);
    assert!(tokens.iter().all(|t| t.token_type != Type::EOF));
    assert!(tokens.len() > 50);
}

#[test]
fn token_places_never_go_back_within_a_line() {
    let (tokens, _) = lex_all(SOURCE);
    for pair in tokens.windows(2) {
        assert!(pair[0].line <= pair[1].line);
        if pair[0].line == pair[1].line {
            assert!(pair[0].column <= pair[1].column);
        }
    }
}

#[test]
fn a_parsed_program_is_read_back_from_its_bytes() {
    let (tokens, _) = lex_all(SOURCE);
    let program = Parser::new(tokens).parse().unwrap();
    assert_eq!(program.items.len(), 3);
    let bytes = program.to_bytes();
    assert_eq!(Program::from_bytes(&bytes), Ok(Parser::new(lex_all(SOURCE).0).parse().unwrap()));
}

#[test]
fn bytes_that_read_as_a_program_are_its_writing() {
    let bytes: Vec<u8> = vec![
        b'C', b'R', b'S', b'T', 1, // header and version
        2, 0, 0, 0, // two items
        0, 0, 1, 1, 0, 0, 0, b'v', 0, 42, 0, 0, 0, 0, 0, 0, 0, // mut v = 42
        4, 1, 0, 0, 0, 5, // entry { break }
    ];
    let program = Program::from_bytes(&bytes).unwrap();
    assert_eq!(program.to_bytes(), bytes);
}
