//! Laws that tie rendering, lexing and parsing together: what the parser
//! makes of source text can be written out and read back.
use crate::instruction::{InstructionView, UsesRegisterView};
use crate::lexer::{
    argument_tokens, line_tokens, tokens_of, tokens_of_lines, InstructionType, LexErrorView,
    TokenKind, TokenView,
};
use crate::listing::{is_numbered, listing_line};
use crate::machine::fits;
use crate::parser::{
    instruction_at, operand, parse_from, parsed, unit_at, with_argument, ParseErrorView,
};
use crate::text::{
    all_digits, decimal, digit, digits, digits_value, fields, is_digit, is_whitespace, join,
    lemma_word_len_bounds, line_len, lines, parsed_int, trim_end, trim_start, trimmed, word_len,
};
use crate::value::ValueView;
use vstd::prelude::*;

verus! {

/// A text without whitespace.
pub open spec fn no_whitespace(s: Seq<char>) -> bool {
    forall|i: int| 0 <= i < s.len() ==> !is_whitespace(#[trigger] s[i])
}

/// A word: a text that is not empty and holds no whitespace.
pub open spec fn is_word(s: Seq<char>) -> bool {
    s.len() > 0 && no_whitespace(s)
}

/// A text in square brackets.
pub open spec fn bracketed(s: Seq<char>) -> bool {
    s.len() >= 2 && s[0] == '[' && s.last() == ']'
}

/// The number that the decimal digits of `n` denote is `n`.
pub proof fn lemma_digits_value(n: nat)
    ensures
        digits(n).len() > 0,
        all_digits(digits(n)),
        digits_value(digits(n)) == n,
    decreases n,
{
    if n < 10 {
        assert(digits(n) == seq![digit(n as int)]);
        assert(digits(n).drop_last() == Seq::<char>::empty());
        assert(digits_value(digits(n).drop_last()) == 0);
    } else {
        lemma_digits_value(n / 10);
        let front = digits(n / 10);
        let last = digit((n % 10) as int);
        assert(digits(n) == front.push(last));
        assert(digits(n).drop_last() == front);
        assert(digits(n).last() == last);
        assert forall|i: int| 0 <= i < digits(n).len() implies is_digit(
            #[trigger] digits(n)[i],
        ) by {
            if i < front.len() {
                assert(digits(n)[i] == front[i]);
            }
        }
    }
}

/// An integer written in decimal reads back as itself, and is a word that
/// does not start with a bracket.
pub proof fn lemma_decimal_parses(i: int)
    requires
        fits(i),
    ensures
        parsed_int(decimal(i)) == Some(i),
        is_word(decimal(i)),
        decimal(i)[0] != '[',
{
    let s = decimal(i);
    if i < 0 {
        let body = digits((-i) as nat);
        lemma_digits_value((-i) as nat);
        assert(s == seq!['-'] + body);
        assert(s[0] == '-');
        assert(s.skip(1) == body);
        assert forall|k: int| 0 <= k < s.len() implies !is_whitespace(#[trigger] s[k]) by {
            if k > 0 {
                assert(s[k] == body[k - 1]);
                assert(is_digit(body[k - 1]));
            }
        }
    } else {
        lemma_digits_value(i as nat);
        assert(is_digit(s[0]));
        assert forall|k: int| 0 <= k < s.len() implies !is_whitespace(#[trigger] s[k]) by {
            assert(is_digit(s[k]));
        }
    }
}

/// A text without line feed is one line.
pub proof fn lemma_one_line(s: Seq<char>)
    requires
        forall|i: int| 0 <= i < s.len() ==> #[trigger] s[i] != '\n',
    ensures
        line_len(s) == s.len(),
        s.len() > 0 ==> lines(s) == seq![s],
    decreases s.len(),
{
    if s.len() > 0 {
        assert(s[0] != '\n');
        assert forall|i: int| 0 <= i < s.skip(1).len() implies #[trigger] s.skip(1)[i] != '\n' by {
            assert(s.skip(1)[i] == s[i + 1]);
        }
        lemma_one_line(s.skip(1));
    }
}

/// A word that stands before whitespace, or at the end, is the first field.
pub proof fn lemma_word_len_of_word(word: Seq<char>, rest: Seq<char>)
    requires
        no_whitespace(word),
        rest.len() == 0 || is_whitespace(rest[0]),
    ensures
        word_len(word + rest) == word.len(),
    decreases word.len(),
{
    let s = word + rest;
    if word.len() == 0 {
        assert(s == rest);
    } else {
        assert(s[0] == word[0]);
        assert(s.skip(1) == word.skip(1) + rest);
        assert forall|i: int| 0 <= i < word.skip(1).len() implies !is_whitespace(
            #[trigger] word.skip(1)[i],
        ) by {
            assert(word.skip(1)[i] == word[i + 1]);
        }
        lemma_word_len_of_word(word.skip(1), rest);
    }
}

/// A word alone is one field; two words with a space between them are two.
pub proof fn lemma_fields_of_words(first: Seq<char>, second: Seq<char>)
    requires
        is_word(first),
        is_word(second),
    ensures
        fields(first) == seq![first],
        fields(first + seq![' '] + second) == seq![first, second],
{
    let none = Seq::<char>::empty();
    lemma_word_len_of_word(first, none);
    assert(first + none == first);
    assert(first.take(first.len() as int) == first);
    assert(first.skip(first.len() as int) == none);
    assert(fields(none) == Seq::<Seq<char>>::empty());
    assert(fields(first) == seq![first] + Seq::<Seq<char>>::empty());

    lemma_word_len_of_word(second, none);
    assert(second + none == second);
    assert(second.take(second.len() as int) == second);
    assert(second.skip(second.len() as int) == none);
    assert(fields(second) == seq![second] + Seq::<Seq<char>>::empty());

    let tail = seq![' '] + second;
    let both = first + seq![' '] + second;
    assert(both == first + tail);
    assert(is_whitespace(tail[0]));
    lemma_word_len_of_word(first, tail);
    assert(both[0] == first[0]);
    assert(both.take(first.len() as int) == first);
    assert(both.skip(first.len() as int) == tail);
    assert(tail.skip(1) == second);
    assert(fields(tail) == fields(second));
    assert(fields(both) == seq![first] + fields(tail));
}

/// A text that neither starts nor ends with whitespace is its own trimmed
/// form.
pub proof fn lemma_trimmed_of_word_ends(s: Seq<char>)
    requires
        s.len() > 0,
        !is_whitespace(s[0]),
        !is_whitespace(s.last()),
    ensures
        trimmed(s) == s,
{
    assert(trim_start(s) == s);
    assert(trim_end(s) == s);
}

/// Each field of a text is a word.
pub proof fn lemma_fields_are_words(s: Seq<char>)
    ensures
        forall|i: int| 0 <= i < fields(s).len() ==> is_word(#[trigger] fields(s)[i]),
    decreases s.len(),
{
    if s.len() == 0 {
        assert(fields(s).len() == 0);
    } else if is_whitespace(s[0]) {
        lemma_fields_are_words(s.skip(1));
        assert(fields(s) == fields(s.skip(1)));
    } else {
        lemma_word_len_bounds(s);
        let n = word_len(s) as int;
        lemma_fields_are_words(s.skip(n));
        let head = s.take(n);
        assert(fields(s) == seq![head] + fields(s.skip(n)));
        assert(is_word(head)) by {
            assert forall|i: int| 0 <= i < head.len() implies !is_whitespace(
                #[trigger] head[i],
            ) by {
                assert(head[i] == s[i]);
            }
        }
        assert forall|i: int| 0 <= i < fields(s).len() implies is_word(
            #[trigger] fields(s)[i],
        ) by {
            if i > 0 {
                assert(fields(s)[i] == fields(s.skip(n))[i - 1]);
            }
        }
    }
}

/// The mnemonic of an instruction, in upper case.
pub open spec fn mnemonic(ty: InstructionType) -> Seq<char> {
    match ty {
        InstructionType::Inbox => "INBOX"@,
        InstructionType::Outbox => "OUTBOX"@,
        InstructionType::CopyFrom => "COPYFROM"@,
        InstructionType::CopyTo => "COPYTO"@,
        InstructionType::Add => "ADD"@,
        InstructionType::Sub => "SUB"@,
        InstructionType::BumpUp => "BUMPUP"@,
        InstructionType::BumpDn => "BUMPDN"@,
        InstructionType::Jump => "JUMP"@,
        InstructionType::JumpZ => "JUMPZ"@,
        InstructionType::JumpN => "JUMPN"@,
    }
}

/// A mnemonic names its instruction. It is a word, and starts no comment.
pub proof fn lemma_mnemonic_named(ty: InstructionType)
    ensures
        InstructionType::exact(mnemonic(ty)) == Some(ty),
        InstructionType::named(mnemonic(ty)) == Some(ty),
        is_word(mnemonic(ty)),
        mnemonic(ty)[0] != '#',
{
    reveal_strlit("INBOX");
    reveal_strlit("OUTBOX");
    reveal_strlit("COPYFROM");
    reveal_strlit("COPYTO");
    reveal_strlit("ADD");
    reveal_strlit("SUB");
    reveal_strlit("BUMPUP");
    reveal_strlit("BUMPDN");
    reveal_strlit("JUMP");
    reveal_strlit("JUMPZ");
    reveal_strlit("JUMPN");
    let m = mnemonic(ty);
    match ty {
        InstructionType::Inbox => {
            assert(m =~= seq!['I', 'N', 'B', 'O', 'X']);
        },
        InstructionType::Outbox => {
            assert(m =~= seq!['O', 'U', 'T', 'B', 'O', 'X']);
            assert(m[0] != "INBOX"@[0]);
        },
        InstructionType::CopyFrom => {
            assert(m =~= seq!['C', 'O', 'P', 'Y', 'F', 'R', 'O', 'M']);
            assert(m[0] != "INBOX"@[0]);
            assert(m[0] != "OUTBOX"@[0]);
        },
        InstructionType::CopyTo => {
            assert(m =~= seq!['C', 'O', 'P', 'Y', 'T', 'O']);
            assert(m[0] != "INBOX"@[0]);
            assert(m[0] != "OUTBOX"@[0]);
        },
        InstructionType::Add => {
            assert(m =~= seq!['A', 'D', 'D']);
        },
        InstructionType::Sub => {
            assert(m =~= seq!['S', 'U', 'B']);
            assert(m[0] != "ADD"@[0]);
        },
        InstructionType::BumpUp => {
            assert(m =~= seq!['B', 'U', 'M', 'P', 'U', 'P']);
            assert(m[0] != "INBOX"@[0]);
            assert(m[0] != "OUTBOX"@[0]);
            assert(m[0] != "COPYTO"@[0]);
        },
        InstructionType::BumpDn => {
            assert(m =~= seq!['B', 'U', 'M', 'P', 'D', 'N']);
            assert(m[0] != "INBOX"@[0]);
            assert(m[0] != "OUTBOX"@[0]);
            assert(m[0] != "COPYTO"@[0]);
            assert(m[4] != "BUMPUP"@[4]);
        },
        InstructionType::Jump => {
            assert(m =~= seq!['J', 'U', 'M', 'P']);
        },
        InstructionType::JumpZ => {
            assert(m =~= seq!['J', 'U', 'M', 'P', 'Z']);
        },
        InstructionType::JumpN => {
            assert(m =~= seq!['J', 'U', 'M', 'P', 'N']);
            assert(m[4] != "JUMPZ"@[4]);
        },
    }
}

/// The instruction type that an instruction is written with.
pub open spec fn kind_of(instruction: InstructionView) -> InstructionType {
    match instruction {
        InstructionView::Outbox => InstructionType::Outbox,
        InstructionView::Add(_) => InstructionType::Add,
        InstructionView::Subtract(_) => InstructionType::Sub,
        InstructionView::CopyTo(_) => InstructionType::CopyTo,
        InstructionView::CopyFrom(_) => InstructionType::CopyFrom,
        InstructionView::BumpPlus(_) => InstructionType::BumpUp,
        InstructionView::BumpMinus(_) => InstructionType::BumpDn,
        InstructionView::Jump { .. } => InstructionType::Jump,
        InstructionView::JumpIfZero { .. } => InstructionType::JumpZ,
        InstructionView::JumpIfNegative { .. } => InstructionType::JumpN,
        _ => InstructionType::Inbox,
    }
}

/// The argument that an instruction is written with, if it takes one.
pub open spec fn argument_of(instruction: InstructionView) -> Seq<char> {
    match instruction {
        InstructionView::Add(reference)
        | InstructionView::Subtract(reference)
        | InstructionView::CopyTo(reference)
        | InstructionView::CopyFrom(reference)
        | InstructionView::BumpPlus(reference)
        | InstructionView::BumpMinus(reference) => reference.text(),
        InstructionView::Jump { label }
        | InstructionView::JumpIfZero { label }
        | InstructionView::JumpIfNegative { label } => label,
        _ => Seq::empty(),
    }
}

/// The canonical text of a numbered instruction is its mnemonic, followed by
/// a space and its argument if it takes one.
pub proof fn lemma_text_shape(instruction: InstructionView)
    requires
        is_numbered(instruction),
    ensures
        instruction.text() == if instruction is Inbox || instruction is Outbox {
            mnemonic(kind_of(instruction))
        } else {
            mnemonic(kind_of(instruction)) + seq![' '] + argument_of(instruction)
        },
{
    reveal_strlit("COPYFROM");
    reveal_strlit("COPYTO");
    reveal_strlit("ADD");
    reveal_strlit("SUB");
    reveal_strlit("BUMPUP");
    reveal_strlit("BUMPDN");
    reveal_strlit("JUMP");
    reveal_strlit("JUMPZ");
    reveal_strlit("JUMPN");
    reveal_strlit("COPYFROM ");
    reveal_strlit("COPYTO ");
    reveal_strlit("ADD ");
    reveal_strlit("SUB ");
    reveal_strlit("BUMPUP ");
    reveal_strlit("BUMPDN ");
    reveal_strlit("JUMP ");
    reveal_strlit("JUMPZ ");
    reveal_strlit("JUMPN ");
    assert("COPYFROM "@ =~= "COPYFROM"@ + seq![' ']);
    assert("COPYTO "@ =~= "COPYTO"@ + seq![' ']);
    assert("ADD "@ =~= "ADD"@ + seq![' ']);
    assert("SUB "@ =~= "SUB"@ + seq![' ']);
    assert("BUMPUP "@ =~= "BUMPUP"@ + seq![' ']);
    assert("BUMPDN "@ =~= "BUMPDN"@ + seq![' ']);
    assert("JUMP "@ =~= "JUMP"@ + seq![' ']);
    assert("JUMPZ "@ =~= "JUMPZ"@ + seq![' ']);
    assert("JUMPN "@ =~= "JUMPN"@ + seq![' ']);
}

/// A key as the parser makes it of a written key: an integer in range, or a
/// text without whitespace that does not read as an integer.
pub open spec fn plain_key(key: ValueView) -> bool {
    match key {
        ValueView::Int(i) => fits(i),
        ValueView::Text(s) => no_whitespace(s) && parsed_int(s) is None,
    }
}

/// A reference as the parser makes it of a written argument: its key is
/// plain, and a direct text key is neither empty nor in square brackets.
pub open spec fn plain_reference(reference: UsesRegisterView) -> bool {
    &&& plain_key(reference.register)
    &&& !reference.indirect ==> (reference.register matches ValueView::Text(s) ==> s.len() > 0
        && !bracketed(s))
}

/// An instruction as the parser makes it of source text: one of the eleven
/// that have a mnemonic, with a plain reference or with a label that is a
/// word.
pub open spec fn writable(instruction: InstructionView) -> bool {
    match instruction {
        InstructionView::Inbox | InstructionView::Outbox => true,
        InstructionView::Add(reference)
        | InstructionView::Subtract(reference)
        | InstructionView::CopyTo(reference)
        | InstructionView::CopyFrom(reference)
        | InstructionView::BumpPlus(reference)
        | InstructionView::BumpMinus(reference) => plain_reference(reference),
        InstructionView::Jump { label }
        | InstructionView::JumpIfZero { label }
        | InstructionView::JumpIfNegative { label } => is_word(label),
        _ => false,
    }
}

/// A plain key, written out, is read back as itself.
pub proof fn lemma_key_text(key: ValueView)
    requires
        plain_key(key),
    ensures
        no_whitespace(key.text()),
        ValueView::coerce(key.text()) == key,
{
    match key {
        ValueView::Int(i) => {
            lemma_decimal_parses(i);
        },
        ValueView::Text(_) => {},
    }
}

/// A plain reference, written out, is a word that is read back as the same
/// reference.
pub proof fn lemma_reference_text(reference: UsesRegisterView)
    requires
        plain_reference(reference),
    ensures
        is_word(reference.text()),
        operand(reference.text()) == reference,
{
    reveal_strlit("[");
    reveal_strlit("]");
    let key = reference.register.text();
    let arg = reference.text();
    lemma_key_text(reference.register);
    if reference.indirect {
        assert(arg == seq!['['] + key + seq![']']);
        assert(arg.len() == key.len() + 2);
        assert(arg[0] == '[');
        assert(arg.last() == ']');
        assert(arg.subrange(1, arg.len() - 1) == key);
        assert forall|i: int| 0 <= i < arg.len() implies !is_whitespace(#[trigger] arg[i]) by {
            if 0 < i < arg.len() - 1 {
                assert(arg[i] == key[i - 1]);
            }
        }
    } else {
        match reference.register {
            ValueView::Int(i) => {
                lemma_decimal_parses(i);
            },
            ValueView::Text(_) => {},
        }
    }
}

/// The tokens of the canonical text of a writable instruction that stands on
/// line `line`: its mnemonic, and its argument if it takes one.
pub open spec fn written_tokens(instruction: InstructionView, line: nat) -> Seq<TokenView> {
    let head = TokenView {
        kind: TokenKind::Instruction,
        value: mnemonic(kind_of(instruction)),
        line,
    };
    if instruction is Inbox || instruction is Outbox {
        seq![head]
    } else {
        seq![head, TokenView { kind: TokenKind::Argument, value: argument_of(instruction), line }]
    }
}

/// The argument of a writable instruction that takes one is a word, and the
/// instruction is what the parser makes of its mnemonic and that argument.
pub proof fn lemma_argument_reads_back(instruction: InstructionView)
    requires
        writable(instruction),
        !(instruction is Inbox),
        !(instruction is Outbox),
    ensures
        is_word(argument_of(instruction)),
        with_argument(kind_of(instruction), argument_of(instruction)) == instruction,
{
    match instruction {
        InstructionView::Add(reference)
        | InstructionView::Subtract(reference)
        | InstructionView::CopyTo(reference)
        | InstructionView::CopyFrom(reference)
        | InstructionView::BumpPlus(reference)
        | InstructionView::BumpMinus(reference) => {
            lemma_reference_text(reference);
        },
        _ => {},
    }
}

/// The canonical text of a writable instruction is one line that ends with a
/// character that is not whitespace, and the lexer turns it into the written
/// tokens of the instruction.
pub proof fn lemma_text_is_line(instruction: InstructionView, number: nat)
    requires
        writable(instruction),
    ensures
        instruction.text().len() > 0,
        !is_whitespace(instruction.text().last()),
        forall|i: int| 0 <= i < instruction.text().len() ==> #[trigger] instruction.text()[i] != '\n',
        line_tokens(instruction.text(), number) == Ok::<Seq<TokenView>, LexErrorView>(
            written_tokens(instruction, number),
        ),
{
    let ty = kind_of(instruction);
    let m = mnemonic(ty);
    let text = instruction.text();
    lemma_mnemonic_named(ty);
    lemma_text_shape(instruction);
    let none = Seq::<Seq<char>>::empty();
    let head = TokenView { kind: TokenKind::Instruction, value: m, line: number };
    if instruction is Inbox || instruction is Outbox {
        assert(text == m);
        lemma_fields_of_words(m, m);
        assert(fields(text).skip(1) == none);
        assert(argument_tokens(none, number) == Seq::<TokenView>::empty());
        assert(seq![head] + Seq::<TokenView>::empty() == seq![head]);
    } else {
        lemma_argument_reads_back(instruction);
        let arg = argument_of(instruction);
        assert(text == m + seq![' '] + arg);
        lemma_fields_of_words(m, arg);
        assert(text[0] == m[0]);
        assert(text.last() == arg.last());
        assert(fields(text).skip(1) == seq![arg]);
        let tail = TokenView { kind: TokenKind::Argument, value: arg, line: number };
        assert(argument_tokens(seq![arg], number) == seq![tail]);
        assert(seq![head] + seq![tail] == seq![head, tail]);
        assert forall|i: int| 0 <= i < text.len() implies !is_whitespace(#[trigger] text[i])
            || i == m.len() by {
            if i < m.len() {
                assert(text[i] == m[i]);
            } else if i > m.len() {
                assert(text[i] == arg[i - m.len() - 1]);
            }
        }
    }
    assert forall|i: int| 0 <= i < text.len() implies #[trigger] text[i] != '\n' by {
        if !(instruction is Inbox || instruction is Outbox) && i == m.len() {
            assert(text[i] == ' ');
        }
    }
    lemma_trimmed_of_word_ends(text);
    assert(trimmed(text) == text);
    assert(text[0] != '#');
    assert(fields(text)[0] == m);
}

/// The length of the first line of two texts in a row.
pub proof fn lemma_line_len_append(first: Seq<char>, rest: Seq<char>)
    ensures
        line_len(first + rest) == if line_len(first) < first.len() {
            line_len(first)
        } else {
            first.len() + line_len(rest)
        },
    decreases first.len(),
{
    let s = first + rest;
    if first.len() == 0 {
        assert(s == rest);
    } else {
        assert(s[0] == first[0]);
        assert(s.skip(1) == first.skip(1) + rest);
        lemma_line_len_append(first.skip(1), rest);
    }
}

/// A line that is added to a text after a line feed is one more line, where
/// the text ends with a character that is not whitespace.
pub proof fn lemma_lines_append(text: Seq<char>, line: Seq<char>)
    requires
        text.len() > 0,
        !is_whitespace(text.last()),
        line.len() > 0,
        forall|i: int| 0 <= i < line.len() ==> #[trigger] line[i] != '\n',
    ensures
        lines(text + seq!['\n'] + line) == lines(text) + seq![line],
    decreases text.len(),
{
    let tail = seq!['\n'] + line;
    let whole = text + seq!['\n'] + line;
    assert(whole == text + tail);
    lemma_line_len_append(text, tail);
    crate::text::lemma_line_len_bounds(text);
    assert(line_len(tail) == 0);
    let n = line_len(text) as int;
    if n < text.len() {
        assert(text[n] == '\n');
        assert(n < text.len() - 1);
        let after = text.skip(n + 1);
        assert(after.last() == text.last());
        assert(whole.take(n) == text.take(n));
        assert(whole.skip(n + 1) == after + seq!['\n'] + line);
        lemma_lines_append(after, line);
        assert(lines(whole) == seq![crate::text::strip_cr(text.take(n))] + lines(
            after + seq!['\n'] + line,
        ));
        assert(lines(text) == seq![crate::text::strip_cr(text.take(n))] + lines(after));
        assert(seq![crate::text::strip_cr(text.take(n))] + (lines(after) + seq![line]) == (seq![
            crate::text::strip_cr(text.take(n)),
        ] + lines(after)) + seq![line]);
    } else {
        assert(whole.take(n) == text);
        assert(whole.skip(n + 1) == line);
        lemma_one_line(line);
        assert(lines(line) == seq![line]);
        assert(crate::text::strip_cr(text) == text);
        assert(lines(text) == seq![text]);
    }
}

/// Lines that are joined by line feeds are the lines of the joined text,
/// where each is one line that is not empty and ends with a character that is
/// not whitespace.
pub proof fn lemma_lines_of_join(parts: Seq<Seq<char>>)
    requires
        forall|k: int|
            0 <= k < parts.len() ==> (#[trigger] parts[k]).len() > 0 && !is_whitespace(
                parts[k].last(),
            ) && forall|i: int| 0 <= i < parts[k].len() ==> #[trigger] parts[k][i] != '\n',
    ensures
        lines(join(parts, seq!['\n'])) == parts,
        parts.len() > 0 ==> join(parts, seq!['\n']).len() > 0 && join(
            parts,
            seq!['\n'],
        ).last() == parts.last().last(),
    decreases parts.len(),
{
    let sep = seq!['\n'];
    if parts.len() == 0 {
    } else if parts.len() == 1 {
        lemma_one_line(parts[0]);
        assert(parts == seq![parts[0]]);
    } else {
        let front = parts.drop_last();
        lemma_lines_of_join(front);
        assert(front.last() == parts[parts.len() - 2]);
        lemma_lines_append(join(front, sep), parts.last());
        assert(front + seq![parts.last()] == parts);
    }
}

/// The written tokens of instructions that stand on lines of their own, the
/// first on line `number`.
pub open spec fn all_written_tokens(instructions: Seq<InstructionView>, number: nat) -> Seq<
    TokenView,
>
    decreases instructions.len(),
{
    if instructions.len() == 0 {
        Seq::empty()
    } else {
        written_tokens(instructions[0], number) + all_written_tokens(
            instructions.skip(1),
            number + 1,
        )
    }
}

/// The canonical texts of instructions.
pub open spec fn canonical_texts(instructions: Seq<InstructionView>) -> Seq<Seq<char>> {
    Seq::new(instructions.len(), |i: int| instructions[i].text())
}

/// The source text that writes each instruction on a line of its own.
pub open spec fn canonical_source(instructions: Seq<InstructionView>) -> Seq<char> {
    join(canonical_texts(instructions), "\n"@)
}

/// The lexer turns the canonical texts of writable instructions, as lines,
/// into their written tokens.
pub proof fn lemma_texts_tokens(instructions: Seq<InstructionView>, number: nat)
    requires
        forall|k: int| 0 <= k < instructions.len() ==> writable(#[trigger] instructions[k]),
    ensures
        tokens_of_lines(canonical_texts(instructions), number) == Ok::<
            Seq<TokenView>,
            LexErrorView,
        >(all_written_tokens(instructions, number)),
    decreases instructions.len(),
{
    if instructions.len() > 0 {
        let texts = canonical_texts(instructions);
        let rest = instructions.skip(1);
        lemma_text_is_line(instructions[0], number);
        assert(texts[0] == instructions[0].text());
        assert(texts.skip(1) == canonical_texts(rest));
        assert forall|k: int| 0 <= k < rest.len() implies writable(#[trigger] rest[k]) by {
            assert(rest[k] == instructions[k + 1]);
        }
        lemma_texts_tokens(rest, number + 1);
    }
}

/// The parser turns the written tokens of writable instructions into those
/// instructions, whatever tokens stand before them.
pub proof fn lemma_written_tokens_parse(
    before: Seq<TokenView>,
    instructions: Seq<InstructionView>,
    number: nat,
)
    requires
        forall|k: int| 0 <= k < instructions.len() ==> writable(#[trigger] instructions[k]),
    ensures
        parse_from(before + all_written_tokens(instructions, number), before.len() as int).0
            == Ok::<Seq<InstructionView>, ParseErrorView>(instructions),
    decreases instructions.len(),
{
    let tokens = before + all_written_tokens(instructions, number);
    let pos = before.len() as int;
    if instructions.len() == 0 {
        assert(tokens == before);
        assert(instructions == Seq::<InstructionView>::empty());
    } else {
        let first = instructions[0];
        let rest = instructions.skip(1);
        let own = written_tokens(first, number);
        let after = all_written_tokens(rest, number + 1);
        assert(tokens == (before + own) + after);
        assert forall|k: int| 0 <= k < rest.len() implies writable(#[trigger] rest[k]) by {
            assert(rest[k] == instructions[k + 1]);
        }
        lemma_written_tokens_parse(before + own, rest, number + 1);
        lemma_mnemonic_named(kind_of(first));
        assert(tokens[pos] == own[0]);
        if first is Inbox || first is Outbox {
            assert(instruction_at(tokens, pos) == (
                Ok::<InstructionView, ParseErrorView>(first),
                0int,
            ));
            assert(unit_at(tokens, pos) == (Ok::<InstructionView, ParseErrorView>(first), pos));
        } else {
            lemma_argument_reads_back(first);
            assert(tokens[pos + 1] == own[1]);
            assert(instruction_at(tokens, pos) == (
                Ok::<InstructionView, ParseErrorView>(first),
                1int,
            ));
            assert(unit_at(tokens, pos) == (
                Ok::<InstructionView, ParseErrorView>(first),
                pos + 1,
            ));
        }
        assert((before + own).len() == unit_at(tokens, pos).1 + 1);
        assert(seq![first] + rest == instructions);
    }
}

/// Writable instructions, written out one on each line, are lexed and parsed
/// back to themselves.
pub proof fn lemma_source_round_trip(instructions: Seq<InstructionView>)
    requires
        forall|k: int| 0 <= k < instructions.len() ==> writable(#[trigger] instructions[k]),
    ensures
        tokens_of(canonical_source(instructions)) is Ok,
        parsed(tokens_of(canonical_source(instructions))->Ok_0) == Ok::<
            Seq<InstructionView>,
            ParseErrorView,
        >(instructions),
{
    reveal_strlit("\n");
    assert("\n"@ == seq!['\n']);
    let texts = canonical_texts(instructions);
    assert forall|k: int| 0 <= k < texts.len() implies (#[trigger] texts[k]).len() > 0
        && !is_whitespace(texts[k].last()) && forall|i: int|
        0 <= i < texts[k].len() ==> #[trigger] texts[k][i] != '\n' by {
        lemma_text_is_line(instructions[k], 1);
    }
    lemma_lines_of_join(texts);
    lemma_texts_tokens(instructions, 1);
    let none = Seq::<TokenView>::empty();
    lemma_written_tokens_parse(none, instructions, 1);
    assert(none + all_written_tokens(instructions, 1) == all_written_tokens(instructions, 1));
}

/// Each argument token holds a word.
pub open spec fn arguments_are_words(tokens: Seq<TokenView>) -> bool {
    forall|i: int|
        0 <= i < tokens.len() && (#[trigger] tokens[i]).kind == TokenKind::Argument ==> is_word(
            tokens[i].value,
        )
}

/// The argument tokens of a line hold words.
pub proof fn lemma_line_arguments_are_words(line: Seq<char>, number: nat)
    ensures
        line_tokens(line, number) matches Ok(tokens) ==> arguments_are_words(tokens),
{
    let body = trimmed(line);
    let words = fields(body);
    lemma_fields_are_words(body);
    crate::text::lemma_trimmed_ends(line);
    if let Ok(tokens) = line_tokens(line, number) {
        assert forall|i: int|
            0 <= i < tokens.len() && (#[trigger] tokens[i]).kind
                == TokenKind::Argument implies is_word(tokens[i].value) by {
            if body.len() > 0 && body[0] != '#' && InstructionType::named(words[0]) is Some {
                let head = TokenView {
                    kind: TokenKind::Instruction,
                    value: words[0],
                    line: number,
                };
                let rest = argument_tokens(words.skip(1), number);
                assert(tokens == seq![head] + rest);
                if i == 0 {
                    assert(tokens[0] == head);
                } else {
                    assert(tokens[i] == rest[i - 1]);
                    assert(rest[i - 1].value == words.skip(1)[i - 1]);
                    assert(words.skip(1)[i - 1] == words[i]);
                }
            }
        }
    }
}

/// The argument tokens that the lexer makes hold words.
pub proof fn lemma_lexed_arguments_are_words(ls: Seq<Seq<char>>, number: nat)
    ensures
        tokens_of_lines(ls, number) matches Ok(tokens) ==> arguments_are_words(tokens),
    decreases ls.len(),
{
    if ls.len() > 0 {
        lemma_line_arguments_are_words(ls[0], number);
        lemma_lexed_arguments_are_words(ls.skip(1), number + 1);
        if let Ok(tokens) = tokens_of_lines(ls, number) {
            let head = line_tokens(ls[0], number)->Ok_0;
            let tail = tokens_of_lines(ls.skip(1), number + 1)->Ok_0;
            assert(tokens == head + tail);
            assert forall|i: int|
                0 <= i < tokens.len() && (#[trigger] tokens[i]).kind
                    == TokenKind::Argument implies is_word(tokens[i].value) by {
                if i < head.len() {
                    assert(tokens[i] == head[i]);
                } else {
                    assert(tokens[i] == tail[i - head.len()]);
                }
            }
        }
    }
}

/// The reference that the parser makes of a word is plain.
pub proof fn lemma_operand_is_plain(arg: Seq<char>)
    requires
        is_word(arg),
    ensures
        plain_reference(operand(arg)),
{
    if bracketed(arg) {
        let inner = arg.subrange(1, arg.len() - 1);
        assert forall|i: int| 0 <= i < inner.len() implies !is_whitespace(#[trigger] inner[i]) by {
            assert(inner[i] == arg[i + 1]);
        }
    }
}

/// What the parser makes of an instruction token and a word is writable.
pub proof fn lemma_with_argument_is_writable(ty: InstructionType, arg: Seq<char>)
    requires
        is_word(arg),
    ensures
        writable(with_argument(ty, arg)),
{
    lemma_operand_is_plain(arg);
}

/// Where the argument tokens hold words, each numbered instruction that the
/// parser makes is writable.
pub proof fn lemma_parsed_is_writable(tokens: Seq<TokenView>, pos: int)
    requires
        arguments_are_words(tokens),
    ensures
        parse_from(tokens, pos).0 matches Ok(program) ==> forall|k: int|
            0 <= k < program.len() && is_numbered(#[trigger] program[k]) ==> writable(program[k]),
    decreases tokens.len() - pos,
{
    if 0 <= pos < tokens.len() {
        if let (Ok(first), at) = unit_at(tokens, pos) {
            lemma_parsed_is_writable(tokens, at + 1);
            if let Ok(program) = parse_from(tokens, pos).0 {
                let rest = parse_from(tokens, at + 1).0->Ok_0;
                assert(program == seq![first] + rest);
                assert(is_numbered(first) ==> writable(first)) by {
                    if tokens[pos].kind == TokenKind::Instruction {
                        let named = InstructionType::named(tokens[pos].value);
                        if named is Some && pos + 1 < tokens.len() && tokens[pos + 1].kind
                            == TokenKind::Argument {
                            lemma_with_argument_is_writable(named->Some_0, tokens[pos + 1].value);
                        }
                    }
                }
                assert forall|k: int|
                    0 <= k < program.len() && is_numbered(
                        #[trigger] program[k],
                    ) implies writable(program[k]) by {
                    if k > 0 {
                        assert(program[k] == rest[k - 1]);
                    }
                }
            }
        }
    }
}

/// The numbered instructions of a program, in order: those that are neither
/// a comment, nor a label, nor an assertion.
pub open spec fn numbered(program: Seq<InstructionView>) -> Seq<InstructionView>
    decreases program.len(),
{
    if program.len() == 0 {
        Seq::empty()
    } else if is_numbered(program.last()) {
        numbered(program.drop_last()).push(program.last())
    } else {
        numbered(program.drop_last())
    }
}

/// Each numbered instruction of a program is one of its instructions.
pub proof fn lemma_numbered_are_members(program: Seq<InstructionView>)
    ensures
        forall|k: int|
            0 <= k < numbered(program).len() ==> is_numbered(#[trigger] numbered(program)[k])
                && program.contains(numbered(program)[k]),
    decreases program.len(),
{
    if program.len() > 0 {
        let front = program.drop_last();
        lemma_numbered_are_members(front);
        assert forall|k: int| 0 <= k < numbered(program).len() implies is_numbered(
            #[trigger] numbered(program)[k],
        ) && program.contains(numbered(program)[k]) by {
            if k < numbered(front).len() {
                let found = numbered(front)[k];
                assert(numbered(program)[k] == found);
                assert(front.contains(found));
                let i = choose|i: int| 0 <= i < front.len() && front[i] == found;
                assert(program[i] == found);
            } else {
                assert(numbered(program)[k] == program[program.len() - 1]);
            }
        }
    }
}

/// The line of the listing for a numbered instruction is its number, a colon
/// and a space, and then its canonical text.
pub proof fn lemma_listing_shows_text(instruction: InstructionView, number: nat)
    requires
        is_numbered(instruction),
    ensures
        listing_line(instruction, number) == digits(number) + ": "@ + instruction.text(),
{
}

/// Reading source text and writing it out again loses nothing: each
/// numbered instruction of a program that was parsed from source text, written
/// in its canonical text, is lexed and parsed back to that one instruction.
///
/// A numbered instruction is one that the listing shows with a number: it is
/// neither a comment, nor a label, nor an assertion. The canonical text of
/// the instruction is what follows the number and the colon on its line of
/// the listing.
pub proof fn lemma_round_trip(source: Seq<char>, k: int)
    requires
        tokens_of(source) is Ok,
        parsed(tokens_of(source)->Ok_0) is Ok,
        0 <= k < parsed(tokens_of(source)->Ok_0)->Ok_0.len(),
        is_numbered(parsed(tokens_of(source)->Ok_0)->Ok_0[k]),
    ensures
        ({
            let instruction = parsed(tokens_of(source)->Ok_0)->Ok_0[k];
            &&& writable(instruction)
            &&& tokens_of(instruction.text()) is Ok
            &&& parsed(tokens_of(instruction.text())->Ok_0) == Ok::<
                Seq<InstructionView>,
                ParseErrorView,
            >(seq![instruction])
        }),
{
    let tokens = tokens_of(source)->Ok_0;
    let instruction = parsed(tokens)->Ok_0[k];
    lemma_lexed_arguments_are_words(lines(source), 1);
    lemma_parsed_is_writable(tokens, 0);
    lemma_source_round_trip(seq![instruction]);
    assert(canonical_texts(seq![instruction]) == seq![instruction.text()]);
}

/// The same for a whole program: the numbered instructions of a program that
/// was parsed from source text, written out one on each line, are lexed and
/// parsed back to the same instructions in the same order.
pub proof fn lemma_program_round_trip(source: Seq<char>)
    requires
        tokens_of(source) is Ok,
        parsed(tokens_of(source)->Ok_0) is Ok,
    ensures
        ({
            let program = parsed(tokens_of(source)->Ok_0)->Ok_0;
            let written = canonical_source(numbered(program));
            &&& tokens_of(written) is Ok
            &&& parsed(tokens_of(written)->Ok_0) == Ok::<Seq<InstructionView>, ParseErrorView>(
                numbered(program),
            )
        }),
{
    let tokens = tokens_of(source)->Ok_0;
    let program = parsed(tokens)->Ok_0;
    let kept = numbered(program);
    lemma_lexed_arguments_are_words(lines(source), 1);
    lemma_parsed_is_writable(tokens, 0);
    lemma_numbered_are_members(program);
    assert forall|k: int| 0 <= k < kept.len() implies writable(#[trigger] kept[k]) by {
        let i = choose|i: int| 0 <= i < program.len() && program[i] == kept[k];
        assert(is_numbered(program[i]));
    }
    lemma_source_round_trip(kept);
}

} // verus!
