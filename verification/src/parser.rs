//! The parser: from tokens to instructions.
use crate::instruction::{Instruction, InstructionView, UsesRegister, UsesRegisterView};
use crate::lexer::{
    tokens_of, InstructionType, LexError, LexErrorView, Lexer, Token, TokenKind, TokenView,
};
use crate::text::chars_of;
use crate::value::{Value, ValueView};
use vstd::prelude::*;

verus! {

/// Why source text or a token sequence is not a program.
#[derive(Debug, PartialEq, Eq)]
pub enum ParseError {
    /// The source text has a line that the lexer refuses.
    Lex { error: LexError },
    /// An argument that follows no instruction that takes one.
    UnexpectedArgument { token: Token },
    /// An instruction token whose text names no instruction.
    UnknownInstruction { token: Token },
    /// An instruction that takes an argument stands last.
    MissingArgument { instruction: Token },
    /// An instruction that takes an argument is followed by another token.
    ExpectedArgument { found: Token },
}

/// What a `ParseError` stands for.
pub enum ParseErrorView {
    Lex { error: LexErrorView },
    UnexpectedArgument { token: TokenView },
    UnknownInstruction { token: TokenView },
    MissingArgument { instruction: TokenView },
    ExpectedArgument { found: TokenView },
}

impl ParseErrorView {
    /// The error as a message.
    pub open spec fn message(self) -> Seq<char> {
        match self {
            ParseErrorView::Lex { error } => error.message(),
            ParseErrorView::UnexpectedArgument { token } => "Unexpected argument token: "@
                + token.text(),
            ParseErrorView::UnknownInstruction { token } => "Unknown instruction: "@ + token.value,
            ParseErrorView::MissingArgument { instruction } => "Expected argument after instruction: "@
                + instruction.text(),
            ParseErrorView::ExpectedArgument { found } => "Expected argument, but got "@
                + found.text(),
        }
    }
}

impl View for ParseError {
    type V = ParseErrorView;

    open spec fn view(&self) -> ParseErrorView {
        match self {
            ParseError::Lex { error } => ParseErrorView::Lex { error: error@ },
            ParseError::UnexpectedArgument { token } => ParseErrorView::UnexpectedArgument {
                token: token@,
            },
            ParseError::UnknownInstruction { token } => ParseErrorView::UnknownInstruction {
                token: token@,
            },
            ParseError::MissingArgument { instruction } => ParseErrorView::MissingArgument {
                instruction: instruction@,
            },
            ParseError::ExpectedArgument { found } => ParseErrorView::ExpectedArgument {
                found: found@,
            },
        }
    }
}

impl ParseError {
    /// The error as a message.
    pub fn to_string(&self) -> (r: String)
        ensures
            r@ == self@.message(),
    {
        match self {
            ParseError::Lex { error } => error.to_string(),
            ParseError::UnexpectedArgument { token } => {
                let mut s = String::from_str("Unexpected argument token: ");
                s.append(token.to_string().as_str());
                s
            },
            ParseError::UnknownInstruction { token } => {
                let mut s = String::from_str("Unknown instruction: ");
                s.append(token.value.as_str());
                s
            },
            ParseError::MissingArgument { instruction } => {
                let mut s = String::from_str("Expected argument after instruction: ");
                s.append(instruction.to_string().as_str());
                s
            },
            ParseError::ExpectedArgument { found } => {
                let mut s = String::from_str("Expected argument, but got ");
                s.append(found.to_string().as_str());
                s
            },
        }
    }
}

/// The addressing descriptor that a register argument denotes. An argument in
/// square brackets is indirect, and its key is what the brackets enclose; any
/// other is direct, and is the key as a whole.
pub open spec fn operand(arg: Seq<char>) -> UsesRegisterView {
    if arg.len() >= 2 && arg[0] == '[' && arg.last() == ']' {
        UsesRegisterView {
            register: ValueView::coerce(arg.subrange(1, arg.len() - 1)),
            indirect: true,
        }
    } else {
        UsesRegisterView { register: ValueView::coerce(arg), indirect: false }
    }
}

/// The instruction of type `ty` with the argument `arg`, for a type that
/// takes a register or a label.
pub open spec fn with_argument(ty: InstructionType, arg: Seq<char>) -> InstructionView {
    match ty {
        InstructionType::CopyFrom => InstructionView::CopyFrom(operand(arg)),
        InstructionType::CopyTo => InstructionView::CopyTo(operand(arg)),
        InstructionType::Add => InstructionView::Add(operand(arg)),
        InstructionType::Sub => InstructionView::Subtract(operand(arg)),
        InstructionType::BumpUp => InstructionView::BumpPlus(operand(arg)),
        InstructionType::BumpDn => InstructionView::BumpMinus(operand(arg)),
        InstructionType::Jump => InstructionView::Jump { label: arg },
        InstructionType::JumpZ => InstructionView::JumpIfZero { label: arg },
        InstructionType::JumpN => InstructionView::JumpIfNegative { label: arg },
        InstructionType::Inbox => InstructionView::Inbox,
        InstructionType::Outbox => InstructionView::Outbox,
    }
}

/// The instruction that starts with the instruction token at `pos`, and how
/// many tokens past `pos` the parser has moved when it is done with it: none
/// for an instruction without argument, one where it looked at the token that
/// follows.
pub open spec fn instruction_at(tokens: Seq<TokenView>, pos: int) -> (Result<
    InstructionView,
    ParseErrorView,
>, int) {
    let token = tokens[pos];
    match InstructionType::named(token.value) {
        None => (Err(ParseErrorView::UnknownInstruction { token }), 0),
        Some(InstructionType::Inbox) => (Ok(InstructionView::Inbox), 0),
        Some(InstructionType::Outbox) => (Ok(InstructionView::Outbox), 0),
        Some(ty) => {
            if pos + 1 >= tokens.len() {
                (Err(ParseErrorView::MissingArgument { instruction: token }), 1)
            } else if tokens[pos + 1].kind != TokenKind::Argument {
                (Err(ParseErrorView::ExpectedArgument { found: tokens[pos + 1] }), 1)
            } else {
                (Ok(with_argument(ty, tokens[pos + 1].value)), 1)
            }
        },
    }
}

/// The instruction that the tokens from `pos` on start with, and the position
/// of the parser when it is done with it.
pub open spec fn unit_at(tokens: Seq<TokenView>, pos: int) -> (Result<
    InstructionView,
    ParseErrorView,
>, int) {
    let token = tokens[pos];
    match token.kind {
        TokenKind::Comment => (Ok(InstructionView::Comment { text: token.value }), pos),
        TokenKind::Label => (Ok(InstructionView::Label { label: token.value }), pos),
        TokenKind::Argument => (Err(ParseErrorView::UnexpectedArgument { token }), pos),
        TokenKind::Instruction => (
            instruction_at(tokens, pos).0,
            pos + instruction_at(tokens, pos).1,
        ),
    }
}

/// What parsing the tokens from `pos` on gives, the instructions or the first
/// error, and the position at which the parser stops: the end of the tokens
/// or the token at which it gave up.
pub open spec fn parse_from(tokens: Seq<TokenView>, pos: int) -> (Result<
    Seq<InstructionView>,
    ParseErrorView,
>, int)
    decreases tokens.len() - pos,
{
    if pos < 0 || pos >= tokens.len() {
        (Ok(Seq::empty()), pos)
    } else {
        match unit_at(tokens, pos) {
            (Ok(first), at) => match parse_from(tokens, at + 1) {
                (Ok(rest), end) => (Ok(seq![first] + rest), end),
                (Err(e), end) => (Err(e), end),
            },
            (Err(e), at) => (Err(e), at),
        }
    }
}

/// The instructions that a token sequence denotes, or the first error.
pub open spec fn parsed(tokens: Seq<TokenView>) -> Result<Seq<InstructionView>, ParseErrorView> {
    parse_from(tokens, 0).0
}

/// Turns tokens into instructions. It keeps its place among the tokens: a
/// second call goes on where the first one stopped. A parser that was made
/// for source text that the lexer refuses keeps the lexer's error, and gives
/// it whenever it is asked to parse.
pub struct Parser {
    tokens: Vec<Token>,
    current_token_index: usize,
    lex_error: Option<LexError>,
}

impl Parser {
    /// The tokens that the parser reads.
    pub closed spec fn tokens(&self) -> Seq<TokenView> {
        self.tokens.deep_view()
    }

    /// The index of the token that the parser reads next.
    pub closed spec fn position(&self) -> int {
        self.current_token_index as int
    }

    /// The error of the lexer, where the parser was made for source text
    /// that the lexer refuses.
    pub closed spec fn lex_error(&self) -> Option<LexErrorView> {
        self.lex_error.deep_view()
    }

    /// A parser for the tokens of `source`. Where the source has a line that
    /// the lexer refuses, the parser has no tokens and keeps the error of
    /// that line.
    pub fn new(source: &str) -> (r: Self)
        ensures
            r.position() == 0,
            match tokens_of(source@) {
                Ok(ts) => r.tokens() == ts && r.lex_error() is None,
                Err(e) => r.tokens() == Seq::<TokenView>::empty() && r.lex_error() == Some(e),
            },
    {
        let lexer = Lexer::new(source);
        match lexer.tokenize() {
            Ok(tokens) => Self { tokens, current_token_index: 0, lex_error: None },
            Err(error) => {
                let tokens: Vec<Token> = Vec::new();
                assert(tokens.deep_view() == Seq::<TokenView>::empty());
                Self { tokens, current_token_index: 0, lex_error: Some(error) }
            },
        }
    }

    /// A parser for the given tokens.
    pub fn from_tokens(tokens: Vec<Token>) -> (r: Self)
        ensures
            r.position() == 0,
            r.tokens() == tokens.deep_view(),
            r.lex_error() is None,
    {
        Self { tokens, current_token_index: 0, lex_error: None }
    }

    /// The token at the current position, if there is one.
    fn current_token(&self) -> (r: Option<&Token>)
        ensures
            0 <= self.position() < self.tokens().len() ==> (r matches Some(t) && t@
                == self.tokens()[self.position()]),
            self.position() >= self.tokens().len() ==> r is None,
    {
        if self.current_token_index < self.tokens.len() {
            Some(&self.tokens[self.current_token_index])
        } else {
            None
        }
    }

    /// Moves to the next token.
    fn step(&mut self)
        requires
            old(self).position() < old(self).tokens().len(),
        ensures
            final(self).tokens() == old(self).tokens(),
            final(self).lex_error() == old(self).lex_error(),
            final(self).position() == old(self).position() + 1,
    {
        assert(self.tokens.deep_view().len() == self.tokens.len());
        self.current_token_index += 1;
    }

    /// The key that a piece of source text denotes.
    fn int_or_str(value: &str) -> (r: Value)
        ensures
            r@ == ValueView::coerce(value@),
    {
        crate::value::int_or_str(value)
    }

    /// The argument of the instruction token at the current position: moves
    /// to the token that follows it, which has to be an argument.
    fn next_argument(&mut self) -> (r: Result<String, ParseError>)
        requires
            0 <= old(self).position() < old(self).tokens().len(),
        ensures
            final(self).tokens() == old(self).tokens(),
            final(self).lex_error() == old(self).lex_error(),
            final(self).position() == old(self).position() + 1,
            ({
                let tokens = old(self).tokens();
                let pos = old(self).position();
                if pos + 1 >= tokens.len() {
                    r matches Err(e) && e@ == (ParseErrorView::MissingArgument {
                        instruction: tokens[pos],
                    })
                } else if tokens[pos + 1].kind != TokenKind::Argument {
                    r matches Err(e) && e@ == (ParseErrorView::ExpectedArgument {
                        found: tokens[pos + 1],
                    })
                } else {
                    r matches Ok(arg) && arg@ == tokens[pos + 1].value
                }
            }),
    {
        let instruction = self.tokens[self.current_token_index].clone();
        self.step();
        match self.current_token() {
            None => Err(ParseError::MissingArgument { instruction }),
            Some(token) => {
                if token.kind != TokenKind::Argument {
                    Err(ParseError::ExpectedArgument { found: token.clone() })
                } else {
                    Ok(token.value.clone())
                }
            },
        }
    }

    /// The instruction of the given type with the register that the next
    /// token names.
    fn parse_with_register_arg(&mut self, instruction_type: InstructionType) -> (r: Result<
        Instruction,
        ParseError,
    >)
        requires
            0 <= old(self).position() < old(self).tokens().len(),
            instruction_type.takes_register(),
            InstructionType::named(old(self).tokens()[old(self).position()].value) == Some(
                instruction_type,
            ),
        ensures
            final(self).tokens() == old(self).tokens(),
            final(self).lex_error() == old(self).lex_error(),
            final(self).position() == old(self).position() + 1,
            match instruction_at(old(self).tokens(), old(self).position()).0 {
                Ok(ins) => r matches Ok(i) && i@ == ins,
                Err(e) => r matches Err(x) && x@ == e,
            },
    {
        let register_str = self.next_argument()?;
        let chars = chars_of(register_str.as_str());
        let n = chars.len();
        let uses_register = if n >= 2 && chars[0] == '[' && chars[n - 1] == ']' {
            let inner = register_str.as_str().substring_char(1, n - 1);
            UsesRegister::new_indirect(Self::int_or_str(inner))
        } else {
            UsesRegister::new(Self::int_or_str(register_str.as_str()))
        };
        assert(uses_register@ == operand(register_str@));
        Ok(
            match instruction_type {
                InstructionType::CopyFrom => Instruction::CopyFrom(uses_register),
                InstructionType::CopyTo => Instruction::CopyTo(uses_register),
                InstructionType::Add => Instruction::Add(uses_register),
                InstructionType::Sub => Instruction::Subtract(uses_register),
                InstructionType::BumpUp => Instruction::BumpPlus(uses_register),
                _ => Instruction::BumpMinus(uses_register),
            },
        )
    }

    /// The jump of the given type to the label that the next token names.
    fn parse_with_label_arg(&mut self, instruction_type: InstructionType) -> (r: Result<
        Instruction,
        ParseError,
    >)
        requires
            0 <= old(self).position() < old(self).tokens().len(),
            instruction_type.takes_label(),
            InstructionType::named(old(self).tokens()[old(self).position()].value) == Some(
                instruction_type,
            ),
        ensures
            final(self).tokens() == old(self).tokens(),
            final(self).lex_error() == old(self).lex_error(),
            final(self).position() == old(self).position() + 1,
            match instruction_at(old(self).tokens(), old(self).position()).0 {
                Ok(ins) => r matches Ok(i) && i@ == ins,
                Err(e) => r matches Err(x) && x@ == e,
            },
    {
        let label = self.next_argument()?;
        Ok(
            match instruction_type {
                InstructionType::Jump => Instruction::Jump { label },
                InstructionType::JumpZ => Instruction::JumpIfZero { label },
                _ => Instruction::JumpIfNegative { label },
            },
        )
    }

    /// The instruction that starts with the instruction token at the
    /// current position.
    fn parse_instruction(&mut self) -> (r: Result<Instruction, ParseError>)
        requires
            0 <= old(self).position() < old(self).tokens().len(),
        ensures
            final(self).tokens() == old(self).tokens(),
            final(self).lex_error() == old(self).lex_error(),
            final(self).position() == old(self).position() + instruction_at(
                old(self).tokens(),
                old(self).position(),
            ).1,
            match instruction_at(old(self).tokens(), old(self).position()).0 {
                Ok(ins) => r matches Ok(i) && i@ == ins,
                Err(e) => r matches Err(x) && x@ == e,
            },
    {
        let token = &self.tokens[self.current_token_index];
        let instruction_type = match InstructionType::from_str(token.value.as_str()) {
            Some(t) => t,
            None => {
                return Err(ParseError::UnknownInstruction { token: token.clone() });
            },
        };
        match instruction_type {
            InstructionType::Inbox => Ok(Instruction::Inbox),
            InstructionType::Outbox => Ok(Instruction::Outbox),
            InstructionType::CopyFrom
            | InstructionType::CopyTo
            | InstructionType::Add
            | InstructionType::Sub
            | InstructionType::BumpUp
            | InstructionType::BumpDn => self.parse_with_register_arg(instruction_type),
            InstructionType::Jump | InstructionType::JumpZ | InstructionType::JumpN => {
                self.parse_with_label_arg(instruction_type)
            },
        }
    }

    /// Parses the tokens from the current position on: one instruction for
    /// each comment, each label and each instruction with its argument.
    /// Returns the first error, if there is one, and stays at the token at
    /// which it gave up. Where the source text was refused by the lexer,
    /// returns the lexer's error and stays where it is.
    pub fn parse(&mut self) -> (r: Result<Vec<Instruction>, ParseError>)
        ensures
            final(self).tokens() == old(self).tokens(),
            final(self).lex_error() == old(self).lex_error(),
            match old(self).lex_error() {
                Some(e) => r matches Err(x) && x@ == (ParseErrorView::Lex { error: e })
                    && final(self).position() == old(self).position(),
                None => final(self).position() == parse_from(
                    old(self).tokens(),
                    old(self).position(),
                ).1 && match parse_from(old(self).tokens(), old(self).position()).0 {
                    Ok(program) => r matches Ok(v) && v.deep_view() == program,
                    Err(e) => r matches Err(x) && x@ == e,
                },
            },
    {
        if let Some(error) = &self.lex_error {
            return Err(ParseError::Lex { error: error.clone() });
        }
        let mut instructions: Vec<Instruction> = Vec::new();
        let ghost tokens = self.tokens();
        let ghost start = self.position();
        assert(instructions.deep_view() == Seq::<InstructionView>::empty());
        while self.current_token_index < self.tokens.len()
            invariant
                tokens == old(self).tokens(),
                start == old(self).position(),
                old(self).lex_error() is None,
                self.lex_error() == old(self).lex_error(),
                self.tokens() == tokens,
                0 <= self.position(),
                parse_from(tokens, start).1 == parse_from(tokens, self.position()).1,
                parse_from(tokens, start).0 == match parse_from(tokens, self.position()).0 {
                    Ok(rest) => Ok(instructions.deep_view() + rest),
                    Err(e) => Err(e),
                },
            decreases tokens.len() - self.position(),
        {
            let ghost pos = self.position();
            let ghost before = instructions.deep_view();
            let token = &self.tokens[self.current_token_index];
            assert(token@ == tokens[pos]);
            let instruction = match token.kind {
                TokenKind::Instruction => self.parse_instruction()?,
                TokenKind::Label => Instruction::Label { label: token.value.clone() },
                TokenKind::Comment => Instruction::Comment { text: token.value.clone() },
                TokenKind::Argument => {
                    return Err(ParseError::UnexpectedArgument { token: token.clone() });
                },
            };
            assert(unit_at(tokens, pos) == (
                Ok::<InstructionView, ParseErrorView>(instruction@),
                self.position(),
            ));
            instructions.push(instruction);
            assert(instructions.deep_view() == before.push(instruction@));
            proof {
                let rest = parse_from(tokens, self.position() + 1).0;
                if rest is Ok {
                    assert(before + (seq![instruction@] + rest->Ok_0) == before.push(instruction@)
                        + rest->Ok_0);
                }
            }
            self.step();
        }
        assert(instructions.deep_view() + Seq::<InstructionView>::empty()
            == instructions.deep_view());
        Ok(instructions)
    }
}

} // verus!
