use crust::ast::{AccessOp, BinaryOp, Expr, Field, Function, Item, Namespace, Object, Parameter, Program, Stmt, UnaryOp};

fn sample_program() -> Program {
    Program {
        items: vec![
            Item::Statement(Stmt::Let {
                mutable: true,
                name: "x".to_string(),
                value: Expr::Binary {
                    left: Box::new(Expr::Integer(-7)),
                    operator: BinaryOp::Exponent,
                    right: Box::new(Expr::Float(2.5f64.to_bits())),
                },
            }),
            Item::Function(Function {
                name: "f".to_string(),
                private: true,
                parameters: vec![Parameter { name: "p".to_string(), mutable: false, reference: true }],
                body: vec![
                    Stmt::If {
                        condition: Expr::Unary { operator: UnaryOp::Not, value: Box::new(Expr::Boolean(false)) },
                        body: vec![Stmt::Break, Stmt::Continue],
                        else_body: Some(vec![Stmt::Return(None)]),
                    },
                    Stmt::While { condition: Expr::Char('\u{e9}'), body: vec![Stmt::Block(vec![])] },
                    Stmt::Return(Some(Expr::Group(Box::new(Expr::String("h\u{e9}llo".to_string()))))),
                ],
            }),
            Item::Object(Object {
                name: "O".to_string(),
                fields: vec![Field { name: "a".to_string(), mutable: true, private: false }],
                constructor: None,
                methods: vec![],
            }),
            Item::Namespace(Namespace {
                name: "n".to_string(),
                items: vec![Item::Entry(vec![Stmt::Assign {
                    target: Expr::Access { value: Box::new(Expr::Name("t".to_string())), operator: AccessOp::Member, member: "m".to_string() },
                    value: Expr::Call { callee: Box::new(Expr::Name("g".to_string())), arguments: vec![Expr::Integer(1), Expr::Integer(2)] },
                }])],
            }),
        ],
    }
}

#[test]
fn an_empty_program_is_the_header_and_a_zero_count() {
    let bytes = Program { items: vec![] }.to_bytes();
    assert_eq!(bytes, b"CRST\x01\x00\x00\x00\x00".to_vec());
}

#[test]
fn a_small_program_in_bytes() {
    let program = Program { items: vec![Item::Statement(Stmt::Expr(Expr::Name("ab".to_string())))] };
    assert_eq!(
        program.to_bytes(),
        vec![b'C', b'R', b'S', b'T', 1, 1, 0, 0, 0, 0, 2, 5, 2, 0, 0, 0, b'a', b'b']
    );
}

#[test]
fn reading_back_what_was_written_gives_the_program() {
    let program = sample_program();
    let bytes = program.to_bytes();
    assert_eq!(Program::from_bytes(&bytes), Ok(sample_program()));
}

#[test]
fn a_wrong_header_is_refused() {
    assert_eq!(Program::from_bytes(b"XRST\x01\x00\x00\x00\x00"), Err("invalid CRST header".to_string()));
}

#[test]
fn another_version_is_refused() {
    assert_eq!(Program::from_bytes(b"CRST\x02\x00\x00\x00\x00"), Err("unsupported CRST format version".to_string()));
}

#[test]
fn bytes_after_the_program_are_refused() {
    assert_eq!(Program::from_bytes(b"CRST\x01\x00\x00\x00\x00\x00"), Err("trailing bytes after CRST program".to_string()));
}

#[test]
fn too_few_bytes_are_refused() {
    assert_eq!(Program::from_bytes(b"CR"), Err("unexpected end of CRST data".to_string()));
    assert_eq!(Program::from_bytes(b"CRST\x01\x01\x00"), Err("unexpected end of CRST data".to_string()));
}

#[test]
fn unknown_tags_are_refused() {
    assert_eq!(Program::from_bytes(b"CRST\x01\x01\x00\x00\x00\x09"), Err("unknown item tag 9".to_string()));
    assert_eq!(Program::from_bytes(b"CRST\x01\x01\x00\x00\x00\x00\x63"), Err("unknown statement tag 99".to_string()));
    assert_eq!(Program::from_bytes(b"CRST\x01\x01\x00\x00\x00\x00\x02\x0b"), Err("unknown expression tag 11".to_string()));
    assert_eq!(
        Program::from_bytes(b"CRST\x01\x01\x00\x00\x00\x00\x02\x06\x02"),
        Err("unknown unary operator tag 2".to_string())
    );
    assert_eq!(
        Program::from_bytes(b"CRST\x01\x01\x00\x00\x00\x00\x02\x07\xff"),
        Err("unknown binary operator tag 255".to_string())
    );
    assert_eq!(
        Program::from_bytes(b"CRST\x01\x01\x00\x00\x00\x00\x02\x09\x07"),
        Err("unknown access operator tag 7".to_string())
    );
}

#[test]
fn a_bad_flag_is_refused() {
    assert_eq!(
        Program::from_bytes(b"CRST\x01\x01\x00\x00\x00\x00\x02\x04\x02"),
        Err("invalid boolean flag in CRST data".to_string())
    );
}

#[test]
fn bad_utf8_is_refused() {
    assert_eq!(
        Program::from_bytes(b"CRST\x01\x01\x00\x00\x00\x00\x02\x05\x01\x00\x00\x00\xff"),
        Err("invalid UTF-8 string in CRST data".to_string())
    );
}

#[test]
fn a_surrogate_is_not_a_char() {
    assert_eq!(
        Program::from_bytes(b"CRST\x01\x01\x00\x00\x00\x00\x02\x03\x00\xd8\x00\x00"),
        Err("invalid character".to_string())
    );
}

#[test]
fn floats_keep_their_bits() {
    let bits = (-0.0f64).to_bits();
    let program = Program { items: vec![Item::Statement(Stmt::Expr(Expr::Float(bits)))] };
    assert_eq!(Program::from_bytes(&program.to_bytes()), Ok(Program { items: vec![Item::Statement(Stmt::Expr(Expr::Float(bits)))] }));
    let nan = f64::NAN.to_bits();
    let program = Program { items: vec![Item::Statement(Stmt::Expr(Expr::Float(nan)))] };
    assert_eq!(Program::from_bytes(&program.to_bytes()).unwrap().to_bytes(), program.to_bytes());
}

#[test]
fn every_binary_operator_reads_back_as_itself() {
    let operators = [
        BinaryOp::Add,
        BinaryOp::Subtract,
        BinaryOp::Multiply,
        BinaryOp::Divide,
        BinaryOp::Remainder,
        BinaryOp::Exponent,
        BinaryOp::Equal,
        BinaryOp::NotEqual,
        BinaryOp::Less,
        BinaryOp::LessOrEqual,
        BinaryOp::Greater,
        BinaryOp::GreaterOrEqual,
        BinaryOp::And,
        BinaryOp::Or,
    ];
    for (tag, operator) in operators.into_iter().enumerate() {
        let program = Program {
            items: vec![Item::Statement(Stmt::Expr(Expr::Binary {
                left: Box::new(Expr::Integer(1)),
                operator,
                right: Box::new(Expr::Integer(2)),
            }))],
        };
        let bytes = program.to_bytes();
        assert_eq!(bytes[12], tag as u8);
        assert_eq!(Program::from_bytes(&bytes), Ok(program));
    }
    assert_eq!(
        Program::from_bytes(b"CRST\x01\x01\x00\x00\x00\x00\x02\x07\x0e"),
        Err("unknown binary operator tag 14".to_string())
    );
}
