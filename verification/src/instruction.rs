//! The instruction set: addressing descriptors, instructions, and their
//! canonical text.
use crate::value::{Value, ValueView};
use vstd::prelude::*;

verus! {

/// A reference to a register: the key, and whether the register it names is
/// used itself (direct) or holds the key of the register to use (indirect).
#[derive(Debug, PartialEq, Eq)]
pub struct UsesRegister {
    pub register: Value,
    pub indirect: bool,
}

/// What a `UsesRegister` stands for.
pub struct UsesRegisterView {
    pub register: ValueView,
    pub indirect: bool,
}

impl UsesRegisterView {
    /// The operand as source text: the key, in square brackets where the
    /// reference is indirect.
    pub open spec fn text(self) -> Seq<char> {
        if self.indirect {
            "["@ + self.register.text() + "]"@
        } else {
            self.register.text()
        }
    }
}

impl View for UsesRegister {
    type V = UsesRegisterView;

    open spec fn view(&self) -> UsesRegisterView {
        UsesRegisterView { register: self.register@, indirect: self.indirect }
    }
}

impl DeepView for UsesRegister {
    type V = UsesRegisterView;

    open spec fn deep_view(&self) -> UsesRegisterView {
        self@
    }
}

impl Clone for UsesRegister {
    fn clone(&self) -> (r: Self)
        ensures
            r == *self,
    {
        UsesRegister { register: self.register.clone(), indirect: self.indirect }
    }
}

impl UsesRegister {
    /// A direct reference to the register `register`.
    pub fn new(register: Value) -> (r: Self)
        ensures
            r.register == register,
            !r.indirect,
    {
        Self { register, indirect: false }
    }

    /// An indirect reference through the register `register`.
    pub fn new_indirect(register: Value) -> (r: Self)
        ensures
            r.register == register,
            r.indirect,
    {
        Self { register, indirect: true }
    }

    /// The operand as source text.
    pub fn to_string(&self) -> (r: String)
        ensures
            r@ == self@.text(),
    {
        if self.indirect {
            let mut s = String::from_str("[");
            let key = self.register.to_string();
            s.append(key.as_str());
            s.append("]");
            s
        } else {
            self.register.to_string()
        }
    }
}

/// One instruction of a program.
#[derive(Debug, PartialEq, Eq)]
pub enum Instruction {
    Comment { text: String },
    Inbox,
    Outbox,
    Add(UsesRegister),
    Subtract(UsesRegister),
    CopyTo(UsesRegister),
    CopyFrom(UsesRegister),
    BumpPlus(UsesRegister),
    BumpMinus(UsesRegister),
    Label { label: String },
    Jump { label: String },
    JumpIfZero { label: String },
    JumpIfNegative { label: String },
    AssertValueIs { value: Value },
    AssertRegisterIs { register: String, value: Value },
}

/// What an `Instruction` stands for.
pub enum InstructionView {
    Comment { text: Seq<char> },
    Inbox,
    Outbox,
    Add(UsesRegisterView),
    Subtract(UsesRegisterView),
    CopyTo(UsesRegisterView),
    CopyFrom(UsesRegisterView),
    BumpPlus(UsesRegisterView),
    BumpMinus(UsesRegisterView),
    Label { label: Seq<char> },
    Jump { label: Seq<char> },
    JumpIfZero { label: Seq<char> },
    JumpIfNegative { label: Seq<char> },
    AssertValueIs { value: ValueView },
    AssertRegisterIs { register: Seq<char>, value: ValueView },
}

impl InstructionView {
    /// A comment or a label: a marker that does no work.
    pub open spec fn is_marker(self) -> bool {
        self is Comment || self is Label
    }

    /// One of the two assertions.
    pub open spec fn is_assertion(self) -> bool {
        self is AssertValueIs || self is AssertRegisterIs
    }

    /// A real instruction: anything but a comment or a label.
    pub open spec fn is_real(self) -> bool {
        !self.is_marker()
    }

    /// One of the three jumps.
    pub open spec fn is_jump(self) -> bool {
        self is Jump || self is JumpIfZero || self is JumpIfNegative
    }

    /// The canonical text of the instruction: the mnemonic, then the operand.
    pub open spec fn text(self) -> Seq<char> {
        match self {
            InstructionView::Comment { text } => "# "@ + text,
            InstructionView::Inbox => "INBOX"@,
            InstructionView::Outbox => "OUTBOX"@,
            InstructionView::Add(reg) => "ADD "@ + reg.text(),
            InstructionView::Subtract(reg) => "SUB "@ + reg.text(),
            InstructionView::CopyTo(reg) => "COPYTO "@ + reg.text(),
            InstructionView::CopyFrom(reg) => "COPYFROM "@ + reg.text(),
            InstructionView::BumpPlus(reg) => "BUMPUP "@ + reg.text(),
            InstructionView::BumpMinus(reg) => "BUMPDN "@ + reg.text(),
            InstructionView::Label { label } => "LABEL: "@ + label,
            InstructionView::Jump { label } => "JUMP "@ + label,
            InstructionView::JumpIfZero { label } => "JUMPZ "@ + label,
            InstructionView::JumpIfNegative { label } => "JUMPN "@ + label,
            InstructionView::AssertValueIs { value } => "ASSERT_VALUE "@ + value.text(),
            InstructionView::AssertRegisterIs { register, value } => "ASSERT_REGISTER "@ + register
                + " "@ + value.text(),
        }
    }
}

impl View for Instruction {
    type V = InstructionView;

    open spec fn view(&self) -> InstructionView {
        match self {
            Instruction::Comment { text } => InstructionView::Comment { text: text@ },
            Instruction::Inbox => InstructionView::Inbox,
            Instruction::Outbox => InstructionView::Outbox,
            Instruction::Add(reg) => InstructionView::Add(reg@),
            Instruction::Subtract(reg) => InstructionView::Subtract(reg@),
            Instruction::CopyTo(reg) => InstructionView::CopyTo(reg@),
            Instruction::CopyFrom(reg) => InstructionView::CopyFrom(reg@),
            Instruction::BumpPlus(reg) => InstructionView::BumpPlus(reg@),
            Instruction::BumpMinus(reg) => InstructionView::BumpMinus(reg@),
            Instruction::Label { label } => InstructionView::Label { label: label@ },
            Instruction::Jump { label } => InstructionView::Jump { label: label@ },
            Instruction::JumpIfZero { label } => InstructionView::JumpIfZero { label: label@ },
            Instruction::JumpIfNegative { label } => InstructionView::JumpIfNegative {
                label: label@,
            },
            Instruction::AssertValueIs { value } => InstructionView::AssertValueIs {
                value: value@,
            },
            Instruction::AssertRegisterIs { register, value } => InstructionView::AssertRegisterIs {
                register: register@,
                value: value@,
            },
        }
    }
}

impl DeepView for Instruction {
    type V = InstructionView;

    open spec fn deep_view(&self) -> InstructionView {
        self@
    }
}

impl Clone for Instruction {
    fn clone(&self) -> (r: Self)
        ensures
            r == *self,
    {
        match self {
            Instruction::Comment { text } => Instruction::Comment { text: text.clone() },
            Instruction::Inbox => Instruction::Inbox,
            Instruction::Outbox => Instruction::Outbox,
            Instruction::Add(reg) => Instruction::Add(reg.clone()),
            Instruction::Subtract(reg) => Instruction::Subtract(reg.clone()),
            Instruction::CopyTo(reg) => Instruction::CopyTo(reg.clone()),
            Instruction::CopyFrom(reg) => Instruction::CopyFrom(reg.clone()),
            Instruction::BumpPlus(reg) => Instruction::BumpPlus(reg.clone()),
            Instruction::BumpMinus(reg) => Instruction::BumpMinus(reg.clone()),
            Instruction::Label { label } => Instruction::Label { label: label.clone() },
            Instruction::Jump { label } => Instruction::Jump { label: label.clone() },
            Instruction::JumpIfZero { label } => Instruction::JumpIfZero { label: label.clone() },
            Instruction::JumpIfNegative { label } => Instruction::JumpIfNegative {
                label: label.clone(),
            },
            Instruction::AssertValueIs { value } => Instruction::AssertValueIs {
                value: value.clone(),
            },
            Instruction::AssertRegisterIs { register, value } => Instruction::AssertRegisterIs {
                register: register.clone(),
                value: value.clone(),
            },
        }
    }
}

/// `head`, then `tail`.
fn prefixed(head: &str, tail: &str) -> (r: String)
    ensures
        r@ == head@ + tail@,
{
    let mut s = String::from_str(head);
    s.append(tail);
    s
}

impl Instruction {
    /// The canonical text of the instruction.
    pub fn to_string(&self) -> (r: String)
        ensures
            r@ == self@.text(),
    {
        match self {
            Instruction::Comment { text } => prefixed("# ", text.as_str()),
            Instruction::Inbox => String::from_str("INBOX"),
            Instruction::Outbox => String::from_str("OUTBOX"),
            Instruction::Add(reg) => prefixed("ADD ", reg.to_string().as_str()),
            Instruction::Subtract(reg) => prefixed("SUB ", reg.to_string().as_str()),
            Instruction::CopyTo(reg) => prefixed("COPYTO ", reg.to_string().as_str()),
            Instruction::CopyFrom(reg) => prefixed("COPYFROM ", reg.to_string().as_str()),
            Instruction::BumpPlus(reg) => prefixed("BUMPUP ", reg.to_string().as_str()),
            Instruction::BumpMinus(reg) => prefixed("BUMPDN ", reg.to_string().as_str()),
            Instruction::Label { label } => prefixed("LABEL: ", label.as_str()),
            Instruction::Jump { label } => prefixed("JUMP ", label.as_str()),
            Instruction::JumpIfZero { label } => prefixed("JUMPZ ", label.as_str()),
            Instruction::JumpIfNegative { label } => prefixed("JUMPN ", label.as_str()),
            Instruction::AssertValueIs { value } => prefixed(
                "ASSERT_VALUE ",
                value.to_string().as_str(),
            ),
            Instruction::AssertRegisterIs { register, value } => {
                let mut s = prefixed("ASSERT_REGISTER ", register.as_str());
                s.append(" ");
                s.append(value.to_string().as_str());
                s
            },
        }
    }
}

} // verus!
