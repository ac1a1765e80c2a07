use hrm::instruction::{Instruction, UsesRegister};
use hrm::lexer::{LexError, Token, TokenKind};
use hrm::parser::{ParseError, Parser};
use hrm::value::Value;

#[test]
fn test_parse_simple_code() {
    let source = r#"# This is a comment
BEGIN:
INBOX
OUTBOX
JUMP BEGIN"#;

    let mut parser = Parser::new(source);
    let instructions = parser.parse().unwrap();

    assert_eq!(instructions.len(), 5);

    match &instructions[0] {
        Instruction::Comment { text } => assert_eq!(text, "This is a comment"),
        _ => panic!("Expected comment instruction"),
    }

    match &instructions[1] {
        Instruction::Label { label } => assert_eq!(label, "BEGIN"),
        _ => panic!("Expected label instruction"),
    }

    assert!(matches!(instructions[2], Instruction::Inbox));
    assert!(matches!(instructions[3], Instruction::Outbox));

    match &instructions[4] {
        Instruction::Jump { label } => assert_eq!(label, "BEGIN"),
        _ => panic!("Expected jump instruction"),
    }
}

#[test]
fn test_parse_code_with_registers() {
    let test_cases = vec![
        ("COPYTO A", "CopyTo", "A", false),
        ("COPYTO [A]", "CopyTo", "A", true),
        ("COPYFROM B", "CopyFrom", "B", false),
        ("COPYFROM [B]", "CopyFrom", "B", true),
        ("ADD C", "Add", "C", false),
        ("ADD [C]", "Add", "C", true),
        ("SUB D", "Subtract", "D", false),
        ("SUB [D]", "Subtract", "D", true),
        ("BUMPUP E", "BumpPlus", "E", false),
        ("BUMPUP [E]", "BumpPlus", "E", true),
        ("BUMPDN F", "BumpMinus", "F", false),
        ("BUMPDN [F]", "BumpMinus", "F", true),
    ];

    for (source, expected_type, register, is_indirect) in test_cases {
        let mut parser = Parser::new(source);
        let instructions = parser.parse().unwrap();

        assert_eq!(instructions.len(), 1);

        let expected_register = Value::String(register.to_string());

        match &instructions[0] {
            Instruction::CopyTo(uses_register) if expected_type == "CopyTo" => {
                assert_eq!(uses_register.register, expected_register);
                assert_eq!(uses_register.indirect, is_indirect);
            }
            Instruction::CopyFrom(uses_register) if expected_type == "CopyFrom" => {
                assert_eq!(uses_register.register, expected_register);
                assert_eq!(uses_register.indirect, is_indirect);
            }
            Instruction::Add(uses_register) if expected_type == "Add" => {
                assert_eq!(uses_register.register, expected_register);
                assert_eq!(uses_register.indirect, is_indirect);
            }
            Instruction::Subtract(uses_register) if expected_type == "Subtract" => {
                assert_eq!(uses_register.register, expected_register);
                assert_eq!(uses_register.indirect, is_indirect);
            }
            Instruction::BumpPlus(uses_register) if expected_type == "BumpPlus" => {
                assert_eq!(uses_register.register, expected_register);
                assert_eq!(uses_register.indirect, is_indirect);
            }
            Instruction::BumpMinus(uses_register) if expected_type == "BumpMinus" => {
                assert_eq!(uses_register.register, expected_register);
                assert_eq!(uses_register.indirect, is_indirect);
            }
            _ => panic!(
                "Unexpected instruction type for {}: {:?}",
                source, instructions[0]
            ),
        }
    }
}

#[test]
fn test_parse_jumps() {
    let test_cases = vec![
        ("JUMP START", "Jump", "START"),
        ("JUMPZ ZERO", "JumpIfZero", "ZERO"),
        ("JUMPN NEGATIVE", "JumpIfNegative", "NEGATIVE"),
    ];

    for (source, expected_type, label) in test_cases {
        let mut parser = Parser::new(source);
        let instructions = parser.parse().unwrap();

        assert_eq!(instructions.len(), 1);

        match &instructions[0] {
            Instruction::Jump { label: l } if expected_type == "Jump" => {
                assert_eq!(l, label);
            }
            Instruction::JumpIfZero { label: l } if expected_type == "JumpIfZero" => {
                assert_eq!(l, label);
            }
            Instruction::JumpIfNegative { label: l } if expected_type == "JumpIfNegative" => {
                assert_eq!(l, label);
            }
            _ => panic!(
                "Unexpected instruction type for {}: {:?}",
                source, instructions[0]
            ),
        }
    }
}

fn parse(source: &str) -> Result<Vec<Instruction>, ParseError> {
    Parser::new(source).parse()
}

fn text(s: &str) -> Value {
    Value::String(s.to_string())
}

fn token(kind: TokenKind, value: &str, line: usize) -> Token {
    Token::new(kind, value.to_string(), line)
}

#[test]
fn copyto_direct_and_indirect() {
    assert_eq!(
        parse("COPYTO [A]").unwrap(),
        vec![Instruction::CopyTo(UsesRegister {
            register: text("A"),
            indirect: true
        })]
    );
    assert_eq!(
        parse("COPYTO A").unwrap(),
        vec![Instruction::CopyTo(UsesRegister {
            register: text("A"),
            indirect: false
        })]
    );
}

#[test]
fn integer_keys_are_integers() {
    assert_eq!(
        parse("ADD 3\nSUB [-12]\nCOPYFROM +7\nBUMPUP 007").unwrap(),
        vec![
            Instruction::Add(UsesRegister::new(Value::Int(3))),
            Instruction::Subtract(UsesRegister::new_indirect(Value::Int(-12))),
            Instruction::CopyFrom(UsesRegister::new(Value::Int(7))),
            Instruction::BumpPlus(UsesRegister::new(Value::Int(7))),
        ]
    );
}

#[test]
fn keys_out_of_range_are_text() {
    assert_eq!(
        parse("ADD 2147483647\nADD 2147483648\nADD -2147483648\nADD -2147483649").unwrap(),
        vec![
            Instruction::Add(UsesRegister::new(Value::Int(2147483647))),
            Instruction::Add(UsesRegister::new(text("2147483648"))),
            Instruction::Add(UsesRegister::new(Value::Int(-2147483648))),
            Instruction::Add(UsesRegister::new(text("-2147483649"))),
        ]
    );
}

#[test]
fn brackets_need_both_ends() {
    assert_eq!(
        parse("ADD [3\nADD 3]\nADD []\nADD [\nADD [[1]]").unwrap(),
        vec![
            Instruction::Add(UsesRegister::new(text("[3"))),
            Instruction::Add(UsesRegister::new(text("3]"))),
            Instruction::Add(UsesRegister::new_indirect(text(""))),
            Instruction::Add(UsesRegister::new(text("["))),
            Instruction::Add(UsesRegister::new_indirect(text("[1]"))),
        ]
    );
}

#[test]
fn jump_labels_stay_text() {
    assert_eq!(
        parse("JUMP 12\nJUMPZ [x]").unwrap(),
        vec![
            Instruction::Jump {
                label: "12".to_string()
            },
            Instruction::JumpIfZero {
                label: "[x]".to_string()
            },
        ]
    );
}

#[test]
fn lower_case_mnemonics_parse() {
    assert_eq!(
        parse("inbox\nbumpdn [c]\noutbox").unwrap(),
        vec![
            Instruction::Inbox,
            Instruction::BumpMinus(UsesRegister::new_indirect(text("c"))),
            Instruction::Outbox,
        ]
    );
}

#[test]
fn empty_source_is_empty_program() {
    assert_eq!(parse("").unwrap(), vec![]);
}

#[test]
fn source_with_lex_error_is_refused() {
    assert_eq!(
        parse("INBOX\nnonsense here").unwrap_err(),
        ParseError::Lex {
            error: LexError {
                line: 2,
                text: "nonsense here".to_string()
            }
        }
    );
    assert_eq!(
        parse("INBOX\nFOO").unwrap_err(),
        ParseError::Lex {
            error: LexError {
                line: 2,
                text: "FOO".to_string()
            }
        }
    );
}

#[test]
fn lex_error_comes_before_any_parse_error() {
    // The first line has a parse error of its own; the lexer's error on the
    // third line is what is reported.
    assert_eq!(
        parse("INBOX 5\nOUTBOX\n  what now  ").unwrap_err(),
        ParseError::Lex {
            error: LexError {
                line: 3,
                text: "what now".to_string()
            }
        }
    );
}

#[test]
fn lex_error_is_given_on_every_parse() {
    let mut parser = Parser::new("FOO");
    let first = parser.parse().unwrap_err();
    let second = parser.parse().unwrap_err();
    assert_eq!(first, second);
    assert_eq!(first.to_string(), "Failed to parse line 1: FOO");
}

#[test]
fn orphaned_argument() {
    assert_eq!(
        parse("INBOX 5").unwrap_err(),
        ParseError::UnexpectedArgument {
            token: token(TokenKind::Argument, "5", 1)
        }
    );
    assert_eq!(
        parse("OUTBOX\nADD 1 2").unwrap_err(),
        ParseError::UnexpectedArgument {
            token: token(TokenKind::Argument, "2", 2)
        }
    );
}

#[test]
fn missing_argument_at_end() {
    assert_eq!(
        parse("INBOX\nADD").unwrap_err(),
        ParseError::MissingArgument {
            instruction: token(TokenKind::Instruction, "ADD", 2)
        }
    );
    assert_eq!(
        parse("JUMP").unwrap_err(),
        ParseError::MissingArgument {
            instruction: token(TokenKind::Instruction, "JUMP", 1)
        }
    );
}

#[test]
fn missing_argument_before_other_token() {
    assert_eq!(
        parse("COPYTO\nOUTBOX").unwrap_err(),
        ParseError::ExpectedArgument {
            found: token(TokenKind::Instruction, "OUTBOX", 2)
        }
    );
    assert_eq!(
        parse("JUMPN\n# note").unwrap_err(),
        ParseError::ExpectedArgument {
            found: token(TokenKind::Comment, "note", 2)
        }
    );
}

#[test]
fn unknown_instruction_token() {
    let mut parser = Parser::from_tokens(vec![
        token(TokenKind::Instruction, "INBOX", 1),
        token(TokenKind::Instruction, "FLY", 2),
    ]);
    assert_eq!(
        parser.parse().unwrap_err(),
        ParseError::UnknownInstruction {
            token: token(TokenKind::Instruction, "FLY", 2)
        }
    );
}

#[test]
fn parse_from_tokens() {
    let mut parser = Parser::from_tokens(vec![
        token(TokenKind::Comment, "c", 1),
        token(TokenKind::Instruction, "sub", 2),
        token(TokenKind::Argument, "[9]", 2),
        token(TokenKind::Label, "end", 3),
    ]);
    assert_eq!(
        parser.parse().unwrap(),
        vec![
            Instruction::Comment {
                text: "c".to_string()
            },
            Instruction::Subtract(UsesRegister::new_indirect(Value::Int(9))),
            Instruction::Label {
                label: "end".to_string()
            },
        ]
    );
}

#[test]
fn second_parse_goes_on_where_the_first_stopped() {
    let mut parser = Parser::new("INBOX\nOUTBOX");
    assert_eq!(parser.parse().unwrap().len(), 2);
    assert_eq!(parser.parse().unwrap(), vec![]);

    // After an error at an orphaned argument the parser stays at that token.
    let mut parser = Parser::new("INBOX 1\nOUTBOX");
    assert!(parser.parse().is_err());
    assert!(parser.parse().is_err());

    // After a misplaced token the parser goes on with that token.
    let mut parser = Parser::new("ADD\nOUTBOX\nINBOX");
    assert!(parser.parse().is_err());
    assert_eq!(
        parser.parse().unwrap(),
        vec![Instruction::Outbox, Instruction::Inbox]
    );
}

#[test]
fn parse_error_messages() {
    assert_eq!(
        parse("INBOX 5").unwrap_err().to_string(),
        "Unexpected argument token: Token(ARGUMENT, '5', 1)"
    );
    assert_eq!(
        parse("ADD").unwrap_err().to_string(),
        "Expected argument after instruction: Token(INSTRUCTION, 'ADD', 1)"
    );
    assert_eq!(
        parse("ADD\nL:").unwrap_err().to_string(),
        "Expected argument, but got Token(LABEL, 'L', 2)"
    );
    let mut parser = Parser::from_tokens(vec![token(TokenKind::Instruction, "FLY", 4)]);
    assert_eq!(
        parser.parse().unwrap_err().to_string(),
        "Unknown instruction: FLY"
    );
}
