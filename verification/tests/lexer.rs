use hrm::lexer::{InstructionType, LexError, Lexer, Token, TokenKind};

#[test]
fn test_tokenize_simple_code() {
    let source = r#"# This is a comment
BEGIN:
INBOX
OUTBOX
JUMP BEGIN"#;

    let lexer = Lexer::new(source);
    let tokens = lexer.tokenize().unwrap();

    assert_eq!(tokens.len(), 6);
    assert_eq!(
        tokens[0],
        Token::new(TokenKind::Comment, "This is a comment".to_string(), 1)
    );
    assert_eq!(
        tokens[1],
        Token::new(TokenKind::Label, "BEGIN".to_string(), 2)
    );
    assert_eq!(
        tokens[2],
        Token::new(TokenKind::Instruction, "INBOX".to_string(), 3)
    );
    assert_eq!(
        tokens[3],
        Token::new(TokenKind::Instruction, "OUTBOX".to_string(), 4)
    );
    assert_eq!(
        tokens[4],
        Token::new(TokenKind::Instruction, "JUMP".to_string(), 5)
    );
    assert_eq!(
        tokens[5],
        Token::new(TokenKind::Argument, "BEGIN".to_string(), 5)
    );
}

fn token(kind: TokenKind, value: &str, line: usize) -> Token {
    Token::new(kind, value.to_string(), line)
}

#[test]
fn tokenize_short_program() {
    let tokens = Lexer::new("# c\nL:\nINBOX\nOUTBOX\nJUMP L").tokenize().unwrap();
    assert_eq!(
        tokens,
        vec![
            token(TokenKind::Comment, "c", 1),
            token(TokenKind::Label, "L", 2),
            token(TokenKind::Instruction, "INBOX", 3),
            token(TokenKind::Instruction, "OUTBOX", 4),
            token(TokenKind::Instruction, "JUMP", 5),
            token(TokenKind::Argument, "L", 5),
        ]
    );
}

#[test]
fn tokenize_empty_source() {
    assert_eq!(Lexer::new("").tokenize().unwrap(), vec![]);
    assert_eq!(Lexer::new("\n\n   \n\t\n").tokenize().unwrap(), vec![]);
}

#[test]
fn blank_lines_count_for_line_numbers() {
    let tokens = Lexer::new("\n\n  INBOX  \n\n\tOUTBOX").tokenize().unwrap();
    assert_eq!(
        tokens,
        vec![
            token(TokenKind::Instruction, "INBOX", 3),
            token(TokenKind::Instruction, "OUTBOX", 5),
        ]
    );
}

#[test]
fn carriage_returns_are_whitespace() {
    let tokens = Lexer::new("INBOX\r\nADD 3\r\n").tokenize().unwrap();
    assert_eq!(
        tokens,
        vec![
            token(TokenKind::Instruction, "INBOX", 1),
            token(TokenKind::Instruction, "ADD", 2),
            token(TokenKind::Argument, "3", 2),
        ]
    );
}

#[test]
fn comment_text_is_trimmed() {
    let tokens = Lexer::new("   #   spaced out   ").tokenize().unwrap();
    assert_eq!(tokens, vec![token(TokenKind::Comment, "spaced out", 1)]);
    let tokens = Lexer::new("#").tokenize().unwrap();
    assert_eq!(tokens, vec![token(TokenKind::Comment, "", 1)]);
    let tokens = Lexer::new("#INBOX").tokenize().unwrap();
    assert_eq!(tokens, vec![token(TokenKind::Comment, "INBOX", 1)]);
}

#[test]
fn mnemonic_case_is_kept() {
    let tokens = Lexer::new("inbox\nCopyTo [a]\njumpz Loop").tokenize().unwrap();
    assert_eq!(
        tokens,
        vec![
            token(TokenKind::Instruction, "inbox", 1),
            token(TokenKind::Instruction, "CopyTo", 2),
            token(TokenKind::Argument, "[a]", 2),
            token(TokenKind::Instruction, "jumpz", 3),
            token(TokenKind::Argument, "Loop", 3),
        ]
    );
}

#[test]
fn every_further_field_is_an_argument() {
    let tokens = Lexer::new("ADD 1   2\t3").tokenize().unwrap();
    assert_eq!(
        tokens,
        vec![
            token(TokenKind::Instruction, "ADD", 1),
            token(TokenKind::Argument, "1", 1),
            token(TokenKind::Argument, "2", 1),
            token(TokenKind::Argument, "3", 1),
        ]
    );
}

#[test]
fn label_drops_colon_and_ignores_the_rest() {
    let tokens = Lexer::new("LOOP: and more\n:").tokenize().unwrap();
    assert_eq!(
        tokens,
        vec![
            token(TokenKind::Label, "LOOP", 1),
            token(TokenKind::Label, "", 2),
        ]
    );
}

#[test]
fn mnemonic_wins_over_label() {
    // `ADD:` is no mnemonic, so it is a label; `ADD` followed by `:` is an instruction.
    let tokens = Lexer::new("ADD:\nADD :").tokenize().unwrap();
    assert_eq!(
        tokens,
        vec![
            token(TokenKind::Label, "ADD", 1),
            token(TokenKind::Instruction, "ADD", 2),
            token(TokenKind::Argument, ":", 2),
        ]
    );
}

#[test]
fn unknown_line_is_an_error() {
    let err = Lexer::new("INBOX\n\n  DANCE now  \nOUTBOX").tokenize().unwrap_err();
    assert_eq!(
        err,
        LexError {
            line: 3,
            text: "DANCE now".to_string()
        }
    );
    assert_eq!(err.to_string(), "Failed to parse line 3: DANCE now");
}

#[test]
fn first_bad_line_is_reported() {
    let err = Lexer::new("what\nnow").tokenize().unwrap_err();
    assert_eq!(err.line, 1);
    assert_eq!(err.text, "what");
}

#[test]
fn unicode_whitespace_separates_fields() {
    let tokens = Lexer::new("\u{3000}ADD\u{00A0}7\u{2003}").tokenize().unwrap();
    assert_eq!(
        tokens,
        vec![
            token(TokenKind::Instruction, "ADD", 1),
            token(TokenKind::Argument, "7", 1),
        ]
    );
}

#[test]
fn instruction_type_from_str() {
    assert_eq!(InstructionType::from_str("INBOX"), Some(InstructionType::Inbox));
    assert_eq!(InstructionType::from_str("OUTBOX"), Some(InstructionType::Outbox));
    assert_eq!(InstructionType::from_str("COPYFROM"), Some(InstructionType::CopyFrom));
    assert_eq!(InstructionType::from_str("COPYTO"), Some(InstructionType::CopyTo));
    assert_eq!(InstructionType::from_str("ADD"), Some(InstructionType::Add));
    assert_eq!(InstructionType::from_str("SUB"), Some(InstructionType::Sub));
    assert_eq!(InstructionType::from_str("BUMPUP"), Some(InstructionType::BumpUp));
    assert_eq!(InstructionType::from_str("BUMPDN"), Some(InstructionType::BumpDn));
    assert_eq!(InstructionType::from_str("JUMP"), Some(InstructionType::Jump));
    assert_eq!(InstructionType::from_str("JUMPZ"), Some(InstructionType::JumpZ));
    assert_eq!(InstructionType::from_str("JUMPN"), Some(InstructionType::JumpN));
    assert_eq!(InstructionType::from_str("JUMPX"), None);
    assert_eq!(InstructionType::from_str(""), None);
}

#[test]
fn instruction_type_ignores_case() {
    assert_eq!(InstructionType::from_str("inbox"), Some(InstructionType::Inbox));
    assert_eq!(InstructionType::from_str("BumpDn"), Some(InstructionType::BumpDn));
    assert_eq!(InstructionType::from_str("jumpN"), Some(InstructionType::JumpN));
    // The upper-case form is the one that Unicode defines: a dotless i is an I.
    assert_eq!(InstructionType::from_str("\u{131}nbox"), Some(InstructionType::Inbox));
}

#[test]
fn instruction_type_from_upper_is_exact() {
    assert_eq!(InstructionType::from_upper("SUB"), Some(InstructionType::Sub));
    assert_eq!(InstructionType::from_upper("sub"), None);
    assert_eq!(InstructionType::from_upper("SUB "), None);
}

#[test]
fn token_and_kind_to_string() {
    assert_eq!(TokenKind::Argument.to_string(), "ARGUMENT");
    assert_eq!(TokenKind::Comment.to_string(), "COMMENT");
    assert_eq!(TokenKind::Instruction.to_string(), "INSTRUCTION");
    assert_eq!(TokenKind::Label.to_string(), "LABEL");
    assert_eq!(
        token(TokenKind::Argument, "[x]", 12).to_string(),
        "Token(ARGUMENT, '[x]', 12)"
    );
}
