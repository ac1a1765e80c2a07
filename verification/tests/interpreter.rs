use hrm::error::RuntimeError;
use hrm::instruction::{Instruction, UsesRegister};
use hrm::interpreter::Interpreter;
use hrm::parser::Parser;
use hrm::registers::RegisterFile;
use hrm::value::Value;

fn text(s: &str) -> Value {
    Value::String(s.to_string())
}

fn ints(values: &[i32]) -> Vec<Value> {
    values.iter().map(|i| Value::Int(*i)).collect()
}

fn registers(pairs: Vec<(Value, Value)>) -> RegisterFile {
    let mut file = RegisterFile::new();
    for (key, value) in pairs {
        file.insert(key, value);
    }
    file
}

fn program(source: &str) -> Vec<Instruction> {
    Parser::new(source).parse().unwrap()
}

fn machine(source: &str, regs: Vec<(Value, Value)>, input: Vec<Value>) -> Interpreter {
    Interpreter::new(registers(regs), program(source), input)
}

fn jump(label: &str) -> Instruction {
    Instruction::Jump {
        label: label.to_string(),
    }
}

#[test]
fn echo_loop_copies_input_to_output() {
    let mut m = machine("START:\nINBOX\nOUTBOX\nJUMP START", vec![], ints(&[1, 2, 3]));
    let output = m.execute_program().unwrap();
    assert_eq!(output, ints(&[1, 2, 3]));
    assert_eq!(m.executions(), 9);
    assert_eq!(m.instruction_count(), 3);
    assert_eq!(m.registers_len(), 0);
    // The inbox that found the tape used up is where the machine stands.
    assert_eq!(m.position(), 1);
    assert_eq!(m.accumulator(), None);
}

#[test]
fn empty_program_halts_at_once() {
    let mut m = machine("", vec![], ints(&[4]));
    assert_eq!(m.step().unwrap(), Some(vec![]));
    assert_eq!(m.execute_program().unwrap(), vec![]);
    assert_eq!(m.executions(), 0);
}

#[test]
fn program_without_inbox_runs_off_the_end() {
    let mut m = machine(
        "# nothing to read\nBUMPUP A\nBUMPUP A\nOUTBOX",
        vec![(text("A"), Value::Int(0))],
        vec![],
    );
    assert_eq!(m.execute_program().unwrap(), ints(&[2]));
    assert_eq!(m.position(), 4);
    assert_eq!(m.executions(), 3);
}

#[test]
fn inbox_on_empty_tape_halts_without_error() {
    let mut m = machine("INBOX\nOUTBOX", vec![], vec![]);
    assert_eq!(m.step().unwrap(), Some(vec![]));
    assert_eq!(m.executions(), 0);
    assert_eq!(m.position(), 0);
    assert_eq!(m.execute_program().unwrap(), vec![]);
}

#[test]
fn step_by_step() {
    let mut m = machine("# c\nINBOX\nL:\nOUTBOX", vec![], ints(&[7]));
    assert_eq!(m.step().unwrap(), None);
    assert_eq!((m.position(), m.executions()), (1, 0));
    assert_eq!(m.step().unwrap(), None);
    assert_eq!((m.position(), m.executions()), (2, 1));
    assert_eq!(m.accumulator(), Some(&Value::Int(7)));
    assert_eq!(m.step().unwrap(), None);
    assert_eq!((m.position(), m.executions()), (3, 1));
    assert_eq!(m.step().unwrap(), None);
    assert_eq!((m.position(), m.executions()), (4, 2));
    assert_eq!(m.accumulator(), None);
    assert_eq!(m.output(), &ints(&[7]));
    assert_eq!(m.step().unwrap(), Some(ints(&[7])));
    assert_eq!(m.step().unwrap(), Some(ints(&[7])));
    assert_eq!((m.position(), m.executions()), (4, 2));
}

#[test]
fn bump_up_changes_register_and_accumulator() {
    let mut m = machine("BUMPUP A", vec![(text("A"), Value::Int(5))], vec![]);
    assert_eq!(m.step().unwrap(), None);
    assert_eq!(m.register(&text("A")), Some(&Value::Int(6)));
    assert_eq!(m.accumulator(), Some(&Value::Int(6)));
    assert_eq!(m.executions(), 1);
}

#[test]
fn bump_down_indirect() {
    let mut m = machine(
        "BUMPDN [P]",
        vec![(text("P"), Value::Int(3)), (Value::Int(3), Value::Int(0))],
        vec![],
    );
    assert_eq!(m.step().unwrap(), None);
    assert_eq!(m.register(&Value::Int(3)), Some(&Value::Int(-1)));
    assert_eq!(m.register(&text("P")), Some(&Value::Int(3)));
    assert_eq!(m.accumulator(), Some(&Value::Int(-1)));
    assert_eq!(m.registers_len(), 2);
}

#[test]
fn bump_errors() {
    let mut m = machine("BUMPUP A", vec![], vec![]);
    assert_eq!(
        m.step().unwrap_err(),
        RuntimeError::RegisterNotFound {
            register: text("A")
        }
    );
    let mut m = machine("BUMPUP [A]", vec![], vec![]);
    assert_eq!(
        m.step().unwrap_err(),
        RuntimeError::RegisterNotFound {
            register: text("A")
        }
    );
    let mut m = machine("BUMPUP [A]", vec![(text("A"), Value::Int(9))], vec![]);
    assert_eq!(
        m.step().unwrap_err(),
        RuntimeError::IndirectRegisterNotFound {
            register: Value::Int(9)
        }
    );
    let mut m = machine("BUMPUP A", vec![(text("A"), text("x"))], vec![]);
    assert_eq!(
        m.step().unwrap_err(),
        RuntimeError::ExpectedInteger {
            text: "x".to_string()
        }
    );
    let mut m = machine("BUMPUP A", vec![(text("A"), Value::Int(i32::MAX))], vec![]);
    assert_eq!(
        m.step().unwrap_err(),
        RuntimeError::Overflow {
            instruction: Instruction::BumpPlus(UsesRegister::new(text("A")))
        }
    );
    assert_eq!(m.register(&text("A")), Some(&Value::Int(i32::MAX)));
    assert_eq!(m.executions(), 0);
}

fn zero_test(held: Option<Value>) -> usize {
    // Position 2 is the label; position 1 is what follows the jump.
    let mut m = Interpreter::new(
        RegisterFile::new(),
        vec![
            Instruction::JumpIfZero {
                label: "X".to_string(),
            },
            Instruction::Outbox,
            Instruction::Label {
                label: "X".to_string(),
            },
        ],
        vec![],
    );
    if let Some(value) = held {
        // Load the accumulator through a register.
        let mut regs = RegisterFile::new();
        regs.insert(Value::Int(0), value);
        m = Interpreter::new(
            regs,
            vec![
                Instruction::CopyFrom(UsesRegister::new(Value::Int(0))),
                Instruction::JumpIfZero {
                    label: "X".to_string(),
                },
                Instruction::Outbox,
                Instruction::Label {
                    label: "X".to_string(),
                },
            ],
            vec![],
        );
        assert_eq!(m.step().unwrap(), None);
        assert_eq!(m.step().unwrap(), None);
        assert_eq!(m.executions(), 2);
        return m.position() - 1;
    }
    assert_eq!(m.step().unwrap(), None);
    assert_eq!(m.executions(), 1);
    m.position()
}

#[test]
fn jump_if_zero() {
    assert_eq!(zero_test(Some(Value::Int(0))), 2);
    assert_eq!(zero_test(Some(text("0"))), 2);
    assert_eq!(zero_test(Some(Value::Int(1))), 1);
    assert_eq!(zero_test(Some(Value::Int(-1))), 1);
    assert_eq!(zero_test(Some(text("00"))), 1);
    assert_eq!(zero_test(Some(text("-0"))), 1);
    assert_eq!(zero_test(Some(text("+0"))), 1);
    assert_eq!(zero_test(Some(text(""))), 1);
    assert_eq!(zero_test(Some(text("zero"))), 1);
    assert_eq!(zero_test(None), 1);
}

fn negative_test(held: Value) -> bool {
    let mut regs = RegisterFile::new();
    regs.insert(Value::Int(0), held);
    let mut m = Interpreter::new(
        regs,
        vec![
            Instruction::CopyFrom(UsesRegister::new(Value::Int(0))),
            Instruction::JumpIfNegative {
                label: "X".to_string(),
            },
            Instruction::Outbox,
            Instruction::Label {
                label: "X".to_string(),
            },
        ],
        vec![],
    );
    assert_eq!(m.step().unwrap(), None);
    assert_eq!(m.step().unwrap(), None);
    assert_eq!(m.executions(), 2);
    m.position() == 3
}

#[test]
fn jump_if_negative() {
    assert!(negative_test(Value::Int(-1)));
    assert!(negative_test(Value::Int(i32::MIN)));
    assert!(negative_test(text("-5")));
    assert!(negative_test(text("-2147483648")));
    assert!(!negative_test(Value::Int(0)));
    assert!(!negative_test(Value::Int(12)));
    assert!(!negative_test(text("-0")));
    assert!(!negative_test(text("5")));
    assert!(!negative_test(text("-")));
    assert!(!negative_test(text("-x")));
    assert!(!negative_test(text("-2147483649")));
    assert!(!negative_test(text(" -5")));
}

#[test]
fn untaken_jump_to_missing_label_is_no_error() {
    let mut m = machine("INBOX\nJUMPZ NOWHERE\nJUMPN NOWHERE\nOUTBOX", vec![], ints(&[5]));
    assert_eq!(m.execute_program().unwrap(), ints(&[5]));
    assert_eq!(m.executions(), 4);
}

#[test]
fn jump_to_missing_label_fails() {
    let mut m = machine("JUMP NOWHERE", vec![], vec![]);
    assert_eq!(
        m.step().unwrap_err(),
        RuntimeError::LabelNotFound {
            label: "NOWHERE".to_string()
        }
    );
    assert_eq!((m.position(), m.executions()), (0, 0));
    let mut m = machine("INBOX\nJUMPZ NOWHERE", vec![], ints(&[0]));
    assert_eq!(
        m.execute_program().unwrap_err(),
        RuntimeError::LabelNotFound {
            label: "NOWHERE".to_string()
        }
    );
    assert_eq!((m.position(), m.executions()), (1, 1));
}

#[test]
fn later_label_shadows_earlier() {
    let mut m = Interpreter::new(
        RegisterFile::new(),
        vec![
            jump("L"),
            Instruction::Label {
                label: "L".to_string(),
            },
            Instruction::Inbox,
            Instruction::Label {
                label: "L".to_string(),
            },
        ],
        ints(&[1]),
    );
    assert_eq!(m.step().unwrap(), None);
    assert_eq!(m.position(), 3);
    assert_eq!(m.execute_program().unwrap(), vec![]);
    assert_eq!(m.accumulator(), None);
}

#[test]
fn add_and_subtract() {
    let mut m = machine(
        "INBOX\nADD 0\nOUTBOX\nINBOX\nSUB [P]\nOUTBOX",
        vec![
            (Value::Int(0), Value::Int(40)),
            (text("P"), Value::Int(0)),
        ],
        ints(&[2, 2]),
    );
    assert_eq!(m.execute_program().unwrap(), ints(&[42, -38]));
    assert_eq!(m.executions(), 6);
}

#[test]
fn add_keeps_accumulator_on_read() {
    let mut m = machine(
        "INBOX\nADD 0\nADD 0",
        vec![(Value::Int(0), Value::Int(1))],
        ints(&[1]),
    );
    m.execute_program().unwrap();
    assert_eq!(m.accumulator(), Some(&Value::Int(3)));
    assert_eq!(m.register(&Value::Int(0)), Some(&Value::Int(1)));
}

#[test]
fn add_with_text_accumulator_is_a_type_error() {
    let mut m = machine(
        "INBOX\nADD 0",
        vec![(Value::Int(0), Value::Int(1))],
        vec![text("foo")],
    );
    assert_eq!(m.step().unwrap(), None);
    assert_eq!(
        m.step().unwrap_err(),
        RuntimeError::ExpectedInteger {
            text: "foo".to_string()
        }
    );
    assert_eq!(m.accumulator(), Some(&text("foo")));
    assert_eq!((m.position(), m.executions()), (1, 1));
    assert_eq!(m.register(&Value::Int(0)), Some(&Value::Int(1)));
    // The failing step can be taken again, and fails again.
    assert!(m.step().is_err());
}

#[test]
fn text_that_reads_as_integer_is_no_integer() {
    let mut m = machine(
        "INBOX\nADD 0",
        vec![(Value::Int(0), Value::Int(1))],
        vec![text("5")],
    );
    assert_eq!(
        m.execute_program().unwrap_err(),
        RuntimeError::ExpectedInteger {
            text: "5".to_string()
        }
    );
    let mut m = machine("INBOX\nSUB 0", vec![(Value::Int(0), text("5"))], ints(&[1]));
    assert_eq!(
        m.execute_program().unwrap_err(),
        RuntimeError::ExpectedInteger {
            text: "5".to_string()
        }
    );
}

#[test]
fn arithmetic_errors_in_order() {
    let add = Instruction::Add(UsesRegister::new(Value::Int(0)));
    let mut m = machine("ADD 0", vec![], vec![]);
    assert_eq!(
        m.step().unwrap_err(),
        RuntimeError::EmptyAccumulator {
            instruction: add.clone()
        }
    );
    let mut m = machine("INBOX\nADD 0", vec![], ints(&[1]));
    assert_eq!(
        m.execute_program().unwrap_err(),
        RuntimeError::RegisterNotFound {
            register: Value::Int(0)
        }
    );
    let mut m = machine(
        "INBOX\nADD 0",
        vec![(Value::Int(0), Value::Int(1))],
        ints(&[i32::MAX]),
    );
    assert_eq!(
        m.execute_program().unwrap_err(),
        RuntimeError::Overflow { instruction: add }
    );
    assert_eq!(m.accumulator(), Some(&Value::Int(i32::MAX)));
    let mut m = machine(
        "INBOX\nSUB 0",
        vec![(Value::Int(0), Value::Int(1))],
        ints(&[i32::MIN]),
    );
    assert_eq!(
        m.execute_program().unwrap_err(),
        RuntimeError::Overflow {
            instruction: Instruction::Subtract(UsesRegister::new(Value::Int(0)))
        }
    );
}

#[test]
fn copy_to_and_from() {
    let mut m = machine(
        "INBOX\nCOPYTO A\nCOPYTO [P]\nINBOX\nCOPYFROM A\nOUTBOX\nCOPYFROM [P]\nOUTBOX",
        vec![(text("P"), text("B"))],
        vec![text("x"), text("y")],
    );
    assert_eq!(m.execute_program().unwrap(), vec![text("x"), text("x")]);
    assert_eq!(m.register(&text("A")), Some(&text("x")));
    assert_eq!(m.register(&text("B")), Some(&text("x")));
    assert_eq!(m.register(&text("P")), Some(&text("B")));
    assert_eq!(m.registers_len(), 3);
}

#[test]
fn copy_to_keeps_accumulator() {
    let mut m = machine("INBOX\nCOPYTO 1", vec![], ints(&[8]));
    m.execute_program().unwrap();
    assert_eq!(m.accumulator(), Some(&Value::Int(8)));
    assert_eq!(m.register(&Value::Int(1)), Some(&Value::Int(8)));
}

#[test]
fn copy_errors() {
    let mut m = machine("COPYTO A", vec![], vec![]);
    assert_eq!(
        m.step().unwrap_err(),
        RuntimeError::EmptyAccumulator {
            instruction: Instruction::CopyTo(UsesRegister::new(text("A")))
        }
    );
    let mut m = machine("INBOX\nCOPYTO [A]", vec![], ints(&[1]));
    assert_eq!(
        m.execute_program().unwrap_err(),
        RuntimeError::RegisterNotFound {
            register: text("A")
        }
    );
    assert_eq!(m.registers_len(), 0);
    let mut m = machine("COPYFROM A", vec![], vec![]);
    assert_eq!(
        m.step().unwrap_err(),
        RuntimeError::RegisterNotFound {
            register: text("A")
        }
    );
    let mut m = machine("COPYFROM [A]", vec![(text("A"), Value::Int(2))], vec![]);
    assert_eq!(
        m.step().unwrap_err(),
        RuntimeError::IndirectRegisterNotFound {
            register: Value::Int(2)
        }
    );
}

#[test]
fn integer_and_text_keys_differ() {
    let mut m = machine(
        "COPYFROM 3",
        vec![(text("3"), Value::Int(1))],
        vec![],
    );
    // The source text `3` is the integer key, which was never written.
    assert_eq!(
        m.step().unwrap_err(),
        RuntimeError::RegisterNotFound {
            register: Value::Int(3)
        }
    );
}

#[test]
fn outbox_empties_accumulator() {
    let mut m = machine("INBOX\nOUTBOX\nOUTBOX", vec![], ints(&[1]));
    assert_eq!(
        m.execute_program().unwrap_err(),
        RuntimeError::EmptyAccumulator {
            instruction: Instruction::Outbox
        }
    );
    assert_eq!(m.output(), &ints(&[1]));
    assert_eq!((m.position(), m.executions()), (2, 2));
}

#[test]
fn assertions_pass_and_are_not_counted() {
    let mut m = Interpreter::new(
        registers(vec![(text("A"), Value::Int(5))]),
        vec![
            Instruction::BumpPlus(UsesRegister::new(text("A"))),
            Instruction::AssertValueIs {
                value: Value::Int(6),
            },
            Instruction::AssertRegisterIs {
                register: "A".to_string(),
                value: Value::Int(6),
            },
        ],
        vec![],
    );
    assert_eq!(m.execute_program().unwrap(), vec![]);
    assert_eq!(m.executions(), 1);
    assert_eq!(m.instruction_count(), 3);
    assert_eq!(m.position(), 3);
    assert_eq!(m.accumulator(), Some(&Value::Int(6)));
}

#[test]
fn assertions_fail_on_mismatch() {
    let mut m = Interpreter::new(
        RegisterFile::new(),
        vec![Instruction::AssertValueIs {
            value: Value::Int(6),
        }],
        vec![],
    );
    assert_eq!(
        m.step().unwrap_err(),
        RuntimeError::AssertionFailed {
            expected: Value::Int(6),
            found: None
        }
    );
    assert_eq!(m.position(), 0);
    let mut m = Interpreter::new(
        RegisterFile::new(),
        vec![
            Instruction::Inbox,
            Instruction::AssertValueIs {
                value: Value::Int(6),
            },
        ],
        vec![text("6")],
    );
    assert_eq!(
        m.execute_program().unwrap_err(),
        RuntimeError::AssertionFailed {
            expected: Value::Int(6),
            found: Some(text("6"))
        }
    );
    let mut m = Interpreter::new(
        registers(vec![(text("A"), Value::Int(1))]),
        vec![
            Instruction::AssertRegisterIs {
                register: "A".to_string(),
                value: Value::Int(1),
            },
            Instruction::AssertRegisterIs {
                register: "A".to_string(),
                value: Value::Int(2),
            },
        ],
        vec![],
    );
    assert_eq!(
        m.execute_program().unwrap_err(),
        RuntimeError::RegisterAssertionFailed {
            name: "A".to_string(),
            expected: Value::Int(2),
            found: Some(Value::Int(1))
        }
    );
    assert_eq!(m.position(), 1);
    let mut m = Interpreter::new(
        registers(vec![(Value::Int(1), Value::Int(1))]),
        vec![Instruction::AssertRegisterIs {
            register: "1".to_string(),
            value: Value::Int(1),
        }],
        vec![],
    );
    // An assertion names its register by text, never by integer.
    assert_eq!(
        m.step().unwrap_err(),
        RuntimeError::RegisterAssertionFailed {
            name: "1".to_string(),
            expected: Value::Int(1),
            found: None
        }
    );
}

#[test]
fn text_assertion_passes_on_equal_text() {
    let mut m = Interpreter::new(
        RegisterFile::new(),
        vec![
            Instruction::Inbox,
            Instruction::AssertValueIs { value: text("foo") },
        ],
        vec![text("foo")],
    );
    assert_eq!(m.execute_program().unwrap(), vec![]);
}

#[test]
fn countdown_program() {
    let mut m = machine(
        "START:\nINBOX\nCOPYTO 0\nLOOP:\nOUTBOX\nBUMPDN 0\nJUMPN START\nJUMP LOOP",
        vec![],
        ints(&[2, 0]),
    );
    assert_eq!(m.execute_program().unwrap(), ints(&[2, 1, 0, 0]));
    assert_eq!(m.register(&Value::Int(0)), Some(&Value::Int(-1)));
    assert_eq!(m.executions(), 18);
}

#[test]
fn input_string_joins_values() {
    let m = machine("", vec![], vec![Value::Int(1), text("a"), Value::Int(-3)]);
    assert_eq!(m.input_string(), "1, a, -3");
    let m = machine("", vec![], vec![]);
    assert_eq!(m.input_string(), "");
    let m = machine("", vec![], ints(&[0]));
    assert_eq!(m.input_string(), "0");
}

#[test]
fn runtime_error_messages() {
    assert_eq!(
        RuntimeError::EmptyAccumulator {
            instruction: Instruction::Outbox
        }
        .to_string(),
        "No value for OUTBOX"
    );
    assert_eq!(
        RuntimeError::ExpectedInteger {
            text: "foo".to_string()
        }
        .to_string(),
        "Expected integer, got string: foo"
    );
    assert_eq!(
        RuntimeError::RegisterNotFound {
            register: Value::Int(3)
        }
        .to_string(),
        "Register 3 not found"
    );
    assert_eq!(
        RuntimeError::IndirectRegisterNotFound {
            register: text("k")
        }
        .to_string(),
        "Indirect register k not found"
    );
    assert_eq!(
        RuntimeError::LabelNotFound {
            label: "L".to_string()
        }
        .to_string(),
        "Label 'L' not found"
    );
    assert_eq!(
        RuntimeError::AssertionFailed {
            expected: Value::Int(1),
            found: None
        }
        .to_string(),
        "Assertion failed: expected 1, got nothing"
    );
    assert_eq!(
        RuntimeError::RegisterAssertionFailed {
            name: "A".to_string(),
            expected: Value::Int(1),
            found: Some(text("x"))
        }
        .to_string(),
        "Assertion failed: expected register 'A' to be 1, got x"
    );
    assert_eq!(
        RuntimeError::Overflow {
            instruction: Instruction::Add(UsesRegister::new_indirect(Value::Int(2)))
        }
        .to_string(),
        "Integer overflow in ADD [2]"
    );
    assert_eq!(
        RuntimeError::StepLimit.to_string(),
        "Execution count is at its limit"
    );
}

#[test]
fn value_as_int() {
    assert_eq!(Value::Int(-4).as_int(), Ok(-4));
    assert_eq!(
        text("4").as_int(),
        Err(RuntimeError::ExpectedInteger {
            text: "4".to_string()
        })
    );
}

#[test]
fn register_file_insert_get_len() {
    let mut file = RegisterFile::new();
    assert_eq!(file.len(), 0);
    assert_eq!(file.get(&Value::Int(1)), None);
    file.insert(Value::Int(1), text("a"));
    file.insert(text("1"), text("b"));
    assert_eq!(file.len(), 2);
    file.insert(Value::Int(1), text("c"));
    assert_eq!(file.len(), 2);
    assert_eq!(file.get(&Value::Int(1)), Some(&text("c")));
    assert_eq!(file.get(&text("1")), Some(&text("b")));
    assert_eq!(file.get(&text("2")), None);
}
