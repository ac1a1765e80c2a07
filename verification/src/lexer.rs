//! The lexer: from source text to tokens.
use crate::text::{
    chars_equal, chars_of, digits, fields, lemma_trimmed_ends, lines, split_lines,
    split_whitespace, to_uppercase, trim, trimmed, uppercase, usize_to_string,
};
use vstd::prelude::*;

verus! {

/// What a token is.
#[derive(Debug, Clone, Copy, PartialEq, Eq, Structural)]
pub enum TokenKind {
    Argument,
    Comment,
    Instruction,
    Label,
}

impl TokenKind {
    /// The name of the kind, in upper case.
    pub open spec fn name(self) -> Seq<char> {
        match self {
            TokenKind::Argument => "ARGUMENT"@,
            TokenKind::Comment => "COMMENT"@,
            TokenKind::Instruction => "INSTRUCTION"@,
            TokenKind::Label => "LABEL"@,
        }
    }

    /// The name of the kind, in upper case.
    pub fn to_string(&self) -> (r: String)
        ensures
            r@ == self.name(),
    {
        match self {
            TokenKind::Argument => String::from_str("ARGUMENT"),
            TokenKind::Comment => String::from_str("COMMENT"),
            TokenKind::Instruction => String::from_str("INSTRUCTION"),
            TokenKind::Label => String::from_str("LABEL"),
        }
    }
}

/// A token: its kind, its text as written, and the number of its source line,
/// counted from 1.
#[derive(Debug, PartialEq, Eq)]
pub struct Token {
    pub kind: TokenKind,
    pub value: String,
    pub line: usize,
}

/// What a `Token` stands for.
pub struct TokenView {
    pub kind: TokenKind,
    pub value: Seq<char>,
    pub line: nat,
}

impl TokenView {
    /// The token as text, for messages.
    pub open spec fn text(self) -> Seq<char> {
        "Token("@ + self.kind.name() + ", '"@ + self.value + "', "@ + digits(self.line) + ")"@
    }
}

impl View for Token {
    type V = TokenView;

    open spec fn view(&self) -> TokenView {
        TokenView { kind: self.kind, value: self.value@, line: self.line as nat }
    }
}

impl DeepView for Token {
    type V = TokenView;

    open spec fn deep_view(&self) -> TokenView {
        self@
    }
}

impl Clone for Token {
    fn clone(&self) -> (r: Self)
        ensures
            r == *self,
    {
        Token { kind: self.kind, value: self.value.clone(), line: self.line }
    }
}

impl Token {
    /// A token of the given kind with the given text, from the given line.
    pub fn new(kind: TokenKind, value: String, line: usize) -> (r: Self)
        ensures
            r.kind == kind,
            r.value == value,
            r.line == line,
    {
        Self { kind, value, line }
    }

    /// The token as text, for messages.
    pub fn to_string(&self) -> (r: String)
        ensures
            r@ == self@.text(),
    {
        let mut s = String::from_str("Token(");
        s.append(self.kind.to_string().as_str());
        s.append(", '");
        s.append(self.value.as_str());
        s.append("', ");
        s.append(usize_to_string(self.line).as_str());
        s.append(")");
        s
    }
}

/// The instructions that source text can name.
#[derive(Debug, Clone, Copy, PartialEq, Eq, Structural)]
pub enum InstructionType {
    Inbox,
    Outbox,
    CopyFrom,
    CopyTo,
    Add,
    Sub,
    BumpUp,
    BumpDn,
    Jump,
    JumpZ,
    JumpN,
}

impl InstructionType {
    /// The instruction whose mnemonic is exactly `s`.
    pub open spec fn exact(s: Seq<char>) -> Option<InstructionType> {
        if s == "INBOX"@ {
            Some(InstructionType::Inbox)
        } else if s == "OUTBOX"@ {
            Some(InstructionType::Outbox)
        } else if s == "COPYFROM"@ {
            Some(InstructionType::CopyFrom)
        } else if s == "COPYTO"@ {
            Some(InstructionType::CopyTo)
        } else if s == "ADD"@ {
            Some(InstructionType::Add)
        } else if s == "SUB"@ {
            Some(InstructionType::Sub)
        } else if s == "BUMPUP"@ {
            Some(InstructionType::BumpUp)
        } else if s == "BUMPDN"@ {
            Some(InstructionType::BumpDn)
        } else if s == "JUMP"@ {
            Some(InstructionType::Jump)
        } else if s == "JUMPZ"@ {
            Some(InstructionType::JumpZ)
        } else if s == "JUMPN"@ {
            Some(InstructionType::JumpN)
        } else {
            None
        }
    }

    /// The instruction that `s` names, whatever the case of its letters: a
    /// mnemonic is recognised as it stands, any other text by its upper-case
    /// form.
    pub open spec fn named(s: Seq<char>) -> Option<InstructionType> {
        match InstructionType::exact(s) {
            Some(t) => Some(t),
            None => InstructionType::exact(uppercase(s)),
        }
    }

    /// Whether the instruction takes a register operand.
    pub open spec fn takes_register(self) -> bool {
        self is CopyFrom || self is CopyTo || self is Add || self is Sub || self is BumpUp
            || self is BumpDn
    }

    /// Whether the instruction takes a label operand.
    pub open spec fn takes_label(self) -> bool {
        self is Jump || self is JumpZ || self is JumpN
    }

    /// The instruction whose mnemonic, in upper case, is exactly `s`.
    pub fn from_upper(s: &str) -> (r: Option<Self>)
        ensures
            r == Self::exact(s@),
    {
        let chars = chars_of(s);
        if chars_equal(&chars, "INBOX") {
            Some(InstructionType::Inbox)
        } else if chars_equal(&chars, "OUTBOX") {
            Some(InstructionType::Outbox)
        } else if chars_equal(&chars, "COPYFROM") {
            Some(InstructionType::CopyFrom)
        } else if chars_equal(&chars, "COPYTO") {
            Some(InstructionType::CopyTo)
        } else if chars_equal(&chars, "ADD") {
            Some(InstructionType::Add)
        } else if chars_equal(&chars, "SUB") {
            Some(InstructionType::Sub)
        } else if chars_equal(&chars, "BUMPUP") {
            Some(InstructionType::BumpUp)
        } else if chars_equal(&chars, "BUMPDN") {
            Some(InstructionType::BumpDn)
        } else if chars_equal(&chars, "JUMP") {
            Some(InstructionType::Jump)
        } else if chars_equal(&chars, "JUMPZ") {
            Some(InstructionType::JumpZ)
        } else if chars_equal(&chars, "JUMPN") {
            Some(InstructionType::JumpN)
        } else {
            None
        }
    }

    /// The instruction that `s` names, whatever the case of its letters.
    pub fn from_str(s: &str) -> (r: Option<Self>)
        ensures
            r == Self::named(s@),
    {
        match Self::from_upper(s) {
            Some(t) => Some(t),
            None => {
                let upper = to_uppercase(s);
                Self::from_upper(upper.as_str())
            },
        }
    }
}

/// A line that is neither blank, a comment, an instruction nor a label.
#[derive(Debug, PartialEq, Eq)]
pub struct LexError {
    /// The number of the line, counted from 1.
    pub line: usize,
    /// The line, without the whitespace around it.
    pub text: String,
}

/// What a `LexError` stands for.
pub struct LexErrorView {
    pub line: nat,
    pub text: Seq<char>,
}

impl LexErrorView {
    /// The error as a message.
    pub open spec fn message(self) -> Seq<char> {
        "Failed to parse line "@ + digits(self.line) + ": "@ + self.text
    }
}

impl View for LexError {
    type V = LexErrorView;

    open spec fn view(&self) -> LexErrorView {
        LexErrorView { line: self.line as nat, text: self.text@ }
    }
}

impl DeepView for LexError {
    type V = LexErrorView;

    open spec fn deep_view(&self) -> LexErrorView {
        self@
    }
}

impl Clone for LexError {
    fn clone(&self) -> (r: Self)
        ensures
            r == *self,
    {
        LexError { line: self.line, text: self.text.clone() }
    }
}

impl LexError {
    /// The error as a message.
    pub fn to_string(&self) -> (r: String)
        ensures
            r@ == self@.message(),
    {
        let mut s = String::from_str("Failed to parse line ");
        s.append(usize_to_string(self.line).as_str());
        s.append(": ");
        s.append(self.text.as_str());
        s
    }
}

/// One argument token for each of `words`, all on line `line`.
pub open spec fn argument_tokens(words: Seq<Seq<char>>, line: nat) -> Seq<TokenView> {
    Seq::new(
        words.len(),
        |i: int| TokenView { kind: TokenKind::Argument, value: words[i], line: line },
    )
}

/// The tokens of one line, which is line number `number` of its source.
///
/// A blank line has none. A line that starts with `#` is one comment, whose
/// text is the rest of the line without the whitespace around it. A line whose
/// first field names an instruction is that instruction and one argument for
/// each further field. A line whose first field ends with a colon is a label,
/// named by what stands before the colon. Any other line is an error.
pub open spec fn line_tokens(line: Seq<char>, number: nat) -> Result<Seq<TokenView>, LexErrorView> {
    let body = trimmed(line);
    let words = fields(body);
    if body.len() == 0 {
        Ok(Seq::empty())
    } else if body[0] == '#' {
        Ok(seq![TokenView { kind: TokenKind::Comment, value: trimmed(body.skip(1)), line: number }])
    } else if InstructionType::named(words[0]) is Some {
        Ok(
            seq![TokenView { kind: TokenKind::Instruction, value: words[0], line: number }]
                + argument_tokens(words.skip(1), number),
        )
    } else if words[0].last() == ':' {
        Ok(seq![TokenView { kind: TokenKind::Label, value: words[0].drop_last(), line: number }])
    } else {
        Err(LexErrorView { line: number, text: body })
    }
}

/// `tokens`, then what `rest` holds; the error of `rest` if it is one.
pub open spec fn followed_by(
    tokens: Seq<TokenView>,
    rest: Result<Seq<TokenView>, LexErrorView>,
) -> Result<Seq<TokenView>, LexErrorView> {
    match rest {
        Ok(more) => Ok(tokens + more),
        Err(e) => Err(e),
    }
}

/// The tokens of the lines `ls`, the first of which has the number `number`;
/// the error of the first line that has one.
pub open spec fn tokens_of_lines(ls: Seq<Seq<char>>, number: nat) -> Result<
    Seq<TokenView>,
    LexErrorView,
>
    decreases ls.len(),
{
    if ls.len() == 0 {
        Ok(Seq::empty())
    } else {
        match line_tokens(ls[0], number) {
            Ok(head) => followed_by(head, tokens_of_lines(ls.skip(1), number + 1)),
            Err(e) => Err(e),
        }
    }
}

/// The tokens of a source text.
pub open spec fn tokens_of(source: Seq<char>) -> Result<Seq<TokenView>, LexErrorView> {
    tokens_of_lines(lines(source), 1)
}

/// Turns source text into tokens.
pub struct Lexer {
    source: String,
}

impl View for Lexer {
    type V = Seq<char>;

    /// The source text.
    closed spec fn view(&self) -> Seq<char> {
        self.source@
    }
}

impl Lexer {
    /// A lexer for the given source text.
    pub fn new(source: &str) -> (r: Self)
        ensures
            r@ == source@,
    {
        Self { source: String::from_str(source) }
    }

    /// Appends the tokens of one line to `tokens`.
    fn tokenize_line(line: &str, number: usize, tokens: &mut Vec<Token>) -> (r: Result<
        (),
        LexError,
    >)
        ensures
            match line_tokens(line@, number as nat) {
                Ok(ts) => r is Ok && final(tokens).deep_view() == old(tokens).deep_view() + ts,
                Err(e) => r matches Err(x) && x@ == e,
            },
    {
        let ghost before = tokens.deep_view();
        let body = trim(line);
        let chars = chars_of(body);
        if chars.len() == 0 {
            assert(tokens.deep_view() == before + Seq::<TokenView>::empty());
            return Ok(());
        }
        if chars[0] == '#' {
            let rest = body.substring_char(1, chars.len());
            assert(rest@ == body@.skip(1));
            let text = trim(rest);
            tokens.push(Token::new(TokenKind::Comment, String::from_str(text), number));
            assert(tokens.deep_view() == before + seq![
                TokenView { kind: TokenKind::Comment, value: text@, line: number as nat },
            ]);
            return Ok(());
        }
        let parts = split_whitespace(body);
        proof {
            lemma_trimmed_ends(line@);
        }
        assert(parts.deep_view().len() == parts.len());
        let first = &parts[0];
        assert(first@ == parts.deep_view()[0]);
        if InstructionType::from_str(first.as_str()).is_some() {
            tokens.push(Token::new(TokenKind::Instruction, first.clone(), number));
            let ghost head = before + seq![
                TokenView { kind: TokenKind::Instruction, value: first@, line: number as nat },
            ];
            assert(tokens.deep_view() == head + argument_tokens(
                parts.deep_view().skip(1).take(0),
                number as nat,
            ));
            let mut i: usize = 1;
            while i < parts.len()
                invariant
                    1 <= i <= parts.len(),
                    tokens.deep_view() == head + argument_tokens(
                        parts.deep_view().skip(1).take(i - 1),
                        number as nat,
                    ),
                decreases parts.len() - i,
            {
                let ghost sofar = tokens.deep_view();
                assert(parts[i as int]@ == parts.deep_view()[i as int]);
                tokens.push(Token::new(TokenKind::Argument, parts[i].clone(), number));
                assert(tokens.deep_view() == sofar.push(
                    TokenView {
                        kind: TokenKind::Argument,
                        value: parts[i as int]@,
                        line: number as nat,
                    },
                ));
                assert(tokens.deep_view() == head + argument_tokens(
                    parts.deep_view().skip(1).take(i as int),
                    number as nat,
                ));
                i += 1;
            }
            assert(parts.deep_view().skip(1).take(parts.len() - 1) == parts.deep_view().skip(1));
            assert(tokens.deep_view() == before + (seq![
                TokenView { kind: TokenKind::Instruction, value: first@, line: number as nat },
            ] + argument_tokens(parts.deep_view().skip(1), number as nat)));
            return Ok(());
        }
        let name = chars_of(first.as_str());
        if name.len() > 0 && name[name.len() - 1] == ':' {
            let label = first.as_str().substring_char(0, name.len() - 1);
            assert(label@ == first@.drop_last());
            tokens.push(Token::new(TokenKind::Label, String::from_str(label), number));
            assert(tokens.deep_view() == before + seq![
                TokenView { kind: TokenKind::Label, value: label@, line: number as nat },
            ]);
            return Ok(());
        }
        proof {
            crate::text::lemma_word_len_bounds(body@);
        }
        Err(LexError { line: number, text: String::from_str(body) })
    }

    /// The tokens of the source text, in order; the error of the first line
    /// that is none of blank, comment, instruction and label.
    pub fn tokenize(&self) -> (r: Result<Vec<Token>, LexError>)
        ensures
            match tokens_of(self@) {
                Ok(ts) => r matches Ok(v) && v.deep_view() == ts,
                Err(e) => r matches Err(x) && x@ == e,
            },
    {
        let mut tokens: Vec<Token> = Vec::new();
        let ls = split_lines(self.source.as_str());
        let mut i: usize = 0;
        assert(ls.deep_view().skip(0) == ls.deep_view());
        assert(tokens.deep_view() == Seq::<TokenView>::empty());
        while i < ls.len()
            invariant
                i <= ls.len(),
                ls.deep_view() == lines(self@),
                tokens_of(self@) == followed_by(
                    tokens.deep_view(),
                    tokens_of_lines(ls.deep_view().skip(i as int), i as nat + 1),
                ),
            decreases ls.len() - i,
        {
            let ghost rest = ls.deep_view().skip(i as int);
            assert(rest[0] == ls[i as int]@);
            assert(rest.skip(1) == ls.deep_view().skip(i + 1));
            let ghost before = tokens.deep_view();
            match Self::tokenize_line(ls[i].as_str(), i + 1, &mut tokens) {
                Ok(()) => {
                    proof {
                        let head = line_tokens(rest[0], i as nat + 1)->Ok_0;
                        let tail = tokens_of_lines(rest.skip(1), i as nat + 2);
                        if tail is Ok {
                            assert(before + (head + tail->Ok_0) == (before + head) + tail->Ok_0);
                        }
                    }
                },
                Err(e) => {
                    return Err(e);
                },
            }
            i += 1;
        }
        assert(tokens.deep_view() + Seq::<TokenView>::empty() == tokens.deep_view());
        Ok(tokens)
    }
}

} // verus!

