use crust::ast::{AccessOp, BinaryOp, Expr, Field, Function, Item, Namespace, Object, Parameter, Program, Stmt, UnaryOp};
use crust::lexer::{Lexed, Lexer};
use crust::parser::{ParseError, Parser};
use crust::token::{Token, Type};

const FILE: &str = "test.cr";

fn lex(source: &str) -> Vec<Token> {
    let mut lexer = Lexer::new(source, FILE);
    let mut tokens = Vec::new();
    match lexer.tokenize(&mut tokens) {
        Lexed::Token(t) if t.token_type == Type::EOF => tokens,
        other => panic!("unexpected pause: {:?}", other),
    }
}

fn parse(source: &str) -> Result<Program, ParseError> {
    Parser::new(lex(source)).parse()
}

fn name(n: &str) -> Expr {
    Expr::Name(n.to_string())
}

fn num(v: i64) -> Expr {
    Expr::Integer(v)
}

fn bin(left: Expr, operator: BinaryOp, right: Expr) -> Expr {
    Expr::Binary { left: Box::new(left), operator, right: Box::new(right) }
}

fn statement(s: Stmt) -> Item {
    Item::Statement(s)
}

#[test]
fn multiplication_binds_tighter_than_addition() {
    assert_eq!(
        parse("mut x = 1 + 2 * 3").unwrap(),
        Program {
            items: vec![statement(Stmt::Let {
                mutable: true,
                name: "x".to_string(),
                value: bin(num(1), BinaryOp::Add, bin(num(2), BinaryOp::Multiply, num(3))),
            })],
        }
    );
}

#[test]
fn exponent_groups_to_the_right_and_subtraction_to_the_left() {
    assert_eq!(
        parse("2 ^ 3 ^ 2").unwrap().items,
        vec![statement(Stmt::Expr(bin(num(2), BinaryOp::Exponent, bin(num(3), BinaryOp::Exponent, num(2)))))]
    );
    assert_eq!(
        parse("a - b - c").unwrap().items,
        vec![statement(Stmt::Expr(bin(bin(name("a"), BinaryOp::Subtract, name("b")), BinaryOp::Subtract, name("c"))))]
    );
}

#[test]
fn logic_comparison_and_unary_operators() {
    assert_eq!(
        parse("!a || -b < c && d == e").unwrap().items,
        vec![statement(Stmt::Expr(bin(
            Expr::Unary { operator: UnaryOp::Not, value: Box::new(name("a")) },
            BinaryOp::Or,
            bin(
                bin(Expr::Unary { operator: UnaryOp::Negate, value: Box::new(name("b")) }, BinaryOp::Less, name("c")),
                BinaryOp::And,
                bin(name("d"), BinaryOp::Equal, name("e")),
            ),
        )))]
    );
}

#[test]
fn immutable_declarations_and_assignments() {
    assert_eq!(
        parse("immut y = (1)\ny = 'c'").unwrap().items,
        vec![
            statement(Stmt::Let { mutable: false, name: "y".to_string(), value: Expr::Group(Box::new(num(1))) }),
            statement(Stmt::Assign { target: name("y"), value: Expr::Char('c') }),
        ]
    );
}

#[test]
fn functions_with_parameters() {
    let program = parse("func add(mut a, :ref b) {\n    ret a + b\n}").unwrap();
    assert_eq!(
        program.items,
        vec![Item::Function(Function {
            name: "add".to_string(),
            private: false,
            parameters: vec![
                Parameter { name: "a".to_string(), mutable: true, reference: false },
                Parameter { name: "b".to_string(), mutable: false, reference: true },
            ],
            body: vec![Stmt::Return(Some(bin(name("a"), BinaryOp::Add, name("b"))))],
        })]
    );
}

#[test]
fn an_immut_parameter_counts_as_mutable() {
    let program = parse("private func f(immut a) {\n}").unwrap();
    assert_eq!(
        program.items,
        vec![Item::Function(Function {
            name: "f".to_string(),
            private: true,
            parameters: vec![Parameter { name: "a".to_string(), mutable: true, reference: false }],
            body: vec![],
        })]
    );
}

#[test]
fn objects_with_fields_constructor_and_methods() {
    let source = "object Point {\n mut x\n :private y\n constructor(a) {\n  this:>x = a\n }\n func:private len() {\n  ret x\n }\n}";
    assert_eq!(
        parse(source).unwrap().items,
        vec![Item::Object(Object {
            name: "Point".to_string(),
            fields: vec![
                Field { name: "x".to_string(), mutable: true, private: false },
                Field { name: "y".to_string(), mutable: false, private: true },
            ],
            constructor: Some(Function {
                name: "constructor".to_string(),
                private: false,
                parameters: vec![Parameter { name: "a".to_string(), mutable: false, reference: false }],
                body: vec![Stmt::Assign {
                    target: Expr::Access { value: Box::new(name("this")), operator: AccessOp::Member, member: "x".to_string() },
                    value: name("a"),
                }],
            }),
            methods: vec![Function {
                name: "len".to_string(),
                private: true,
                parameters: vec![],
                body: vec![Stmt::Return(Some(name("x")))],
            }],
        })]
    );
}

#[test]
fn namespaces_and_entry_with_calls() {
    let source = "namespace math {\n func sq(x) {\n  ret x * x\n }\n}\nentry {\n std::println(\"hi\", math::sq(2))\n}";
    assert_eq!(
        parse(source).unwrap().items,
        vec![
            Item::Namespace(Namespace {
                name: "math".to_string(),
                items: vec![Item::Function(Function {
                    name: "sq".to_string(),
                    private: false,
                    parameters: vec![Parameter { name: "x".to_string(), mutable: false, reference: false }],
                    body: vec![Stmt::Return(Some(bin(name("x"), BinaryOp::Multiply, name("x"))))],
                })],
            }),
            Item::Entry(vec![Stmt::Expr(Expr::Call {
                callee: Box::new(Expr::Access { value: Box::new(name("std")), operator: AccessOp::Namespace, member: "println".to_string() }),
                arguments: vec![
                    Expr::String("hi".to_string()),
                    Expr::Call {
                        callee: Box::new(Expr::Access { value: Box::new(name("math")), operator: AccessOp::Namespace, member: "sq".to_string() }),
                        arguments: vec![num(2)],
                    },
                ],
            })]),
        ]
    );
}

#[test]
fn if_else_if_else_while_and_jumps() {
    let source = "if a {\n b\n} else if c {\n d\n} else {\n e\n}\nwhile true {\n break\n continue\n ret\n}\n{\n x\n}";
    assert_eq!(
        parse(source).unwrap().items,
        vec![
            statement(Stmt::If {
                condition: name("a"),
                body: vec![Stmt::Expr(name("b"))],
                else_body: Some(vec![Stmt::If {
                    condition: name("c"),
                    body: vec![Stmt::Expr(name("d"))],
                    else_body: Some(vec![Stmt::Expr(name("e"))]),
                }]),
            }),
            statement(Stmt::While {
                condition: Expr::Boolean(true),
                body: vec![Stmt::Break, Stmt::Continue, Stmt::Return(None)],
            }),
            statement(Stmt::Block(vec![Stmt::Expr(name("x"))])),
        ]
    );
}

#[test]
fn blank_programs_have_no_items() {
    assert_eq!(parse("").unwrap(), Program { items: vec![] });
    assert_eq!(parse("\n\n  # only a comment\n").unwrap(), Program { items: vec![] });
}

#[test]
fn the_tokens_of_an_include_are_parsed_in_its_place() {
    let inner = vec![
        Token { token_type: Type::Identifier("x".to_string()), line: 1, column: 1, file: "lib.cr".to_string() },
        Token { token_type: Type::EOL, line: 2, column: 0, file: "lib.cr".to_string() },
    ];
    let tokens = vec![
        Token { token_type: Type::Get(inner), line: 1, column: 4, file: FILE.to_string() },
        Token { token_type: Type::EOL, line: 2, column: 0, file: FILE.to_string() },
        Token { token_type: Type::Identifier("y".to_string()), line: 2, column: 1, file: FILE.to_string() },
    ];
    assert_eq!(
        Parser::new(tokens).parse().unwrap().items,
        vec![statement(Stmt::Expr(name("x"))), statement(Stmt::Expr(name("y")))]
    );
}

#[test]
fn a_missing_name_is_reported_at_the_token_after_the_one_read() {
    let error = parse("mut = 1").unwrap_err();
    assert_eq!(
        error,
        ParseError { message: "expected an identifier".to_string(), line: 1, column: 7, file: FILE.to_string() }
    );
    assert_eq!(error.describe(), "expected an identifier at test.cr 1:7");
}

#[test]
fn a_missing_token_at_the_end_is_reported_at_the_last_token() {
    let error = parse("(1").unwrap_err();
    assert_eq!(error.describe(), "expected RParen at test.cr 1:2");
}

#[test]
fn a_missing_expression() {
    let error = parse("mut x = )").unwrap_err();
    assert_eq!(error.describe(), "expected an expression at test.cr 1:9");
}

#[test]
fn an_error_with_no_tokens_left_is_placed_nowhere() {
    let tokens = vec![Token { token_type: Type::Mut, line: 1, column: 1, file: FILE.to_string() }];
    let error = Parser::new(tokens).parse().unwrap_err();
    assert_eq!(
        error,
        ParseError { message: "expected an identifier".to_string(), line: 1, column: 1, file: FILE.to_string() }
    );
    let error = Parser::new(vec![Token { token_type: Type::LParen, line: 3, column: 2, file: FILE.to_string() }])
        .parse()
        .unwrap_err();
    assert_eq!(error.describe(), "expected an expression at test.cr 3:2");
}
