use hrm::level::Level;
use hrm::text::{
    chars_equal, chars_of, int_to_string, is_whitespace_char, join_strings, parse_int,
    split_lines, split_whitespace, str_equal, trim, unsigned_to_string, usize_to_string,
};
use hrm::value::{int_or_str, value_vec_to_string, Value};

fn text(s: &str) -> Value {
    Value::String(s.to_string())
}

#[test]
fn whitespace_is_what_std_says() {
    for code in 0u32..0x11000 {
        if let Some(c) = char::from_u32(code) {
            assert_eq!(is_whitespace_char(c), c.is_whitespace(), "U+{:04X}", code);
        }
    }
    assert!(!is_whitespace_char('\u{10FFFF}'));
}

#[test]
fn trim_matches_std() {
    for s in [
        "",
        " ",
        "a",
        "  a b  ",
        "\t\r\nx\u{3000}",
        "\u{A0}y z\u{2003}\u{2028}",
        "no-space",
        " \u{1680} ",
    ] {
        assert_eq!(trim(s), s.trim(), "{:?}", s);
    }
}

#[test]
fn split_whitespace_matches_std() {
    for s in [
        "",
        "   ",
        "one",
        " one  two\tthree\n",
        "a\u{A0}b\u{3000}c",
        "ADD [3]",
    ] {
        let expected: Vec<String> = s.split_whitespace().map(|p| p.to_string()).collect();
        assert_eq!(split_whitespace(s), expected, "{:?}", s);
    }
}

#[test]
fn split_lines_matches_std() {
    for s in [
        "",
        "\n",
        "a",
        "a\n",
        "a\nb",
        "a\n\nb\n",
        "a\r\nb\r\n",
        "a\rb\r",
        "\r\n",
        "\r",
        "x\r\r\ny",
        "\n\n",
    ] {
        let expected: Vec<String> = s.lines().map(|p| p.to_string()).collect();
        assert_eq!(split_lines(s), expected, "{:?}", s);
    }
}

#[test]
fn parse_int_matches_std() {
    for s in [
        "",
        "0",
        "-0",
        "+0",
        "7",
        "-7",
        "+7",
        "007",
        "-007",
        "2147483647",
        "2147483648",
        "-2147483648",
        "-2147483649",
        "00000000000000000000001",
        "99999999999999999999999",
        "-99999999999999999999999",
        "+",
        "-",
        "--1",
        "+-1",
        "1-",
        " 1",
        "1 ",
        "1a",
        "a1",
        "1_000",
        "\u{0661}",
        "１",
        "0x10",
    ] {
        assert_eq!(parse_int(s), s.parse::<i32>().ok(), "{:?}", s);
    }
}

#[test]
fn decimal_matches_std() {
    for i in [
        0,
        1,
        9,
        10,
        11,
        99,
        100,
        -1,
        -9,
        -10,
        -100,
        12345,
        -67890,
        i32::MAX,
        i32::MIN,
        i32::MIN + 1,
    ] {
        assert_eq!(int_to_string(i), i.to_string());
    }
    for n in [0u64, 5, 10, 1234567890, u64::MAX] {
        assert_eq!(unsigned_to_string(n), n.to_string());
    }
    assert_eq!(usize_to_string(0), "0");
    assert_eq!(usize_to_string(4096), "4096");
}

#[test]
fn decimal_round_trips() {
    for i in [0, 1, -1, 42, -42, 1000, i32::MAX, i32::MIN] {
        assert_eq!(parse_int(&int_to_string(i)), Some(i));
    }
}

#[test]
fn chars_and_equality() {
    assert_eq!(chars_of("aé\u{3000}"), vec!['a', 'é', '\u{3000}']);
    assert_eq!(chars_of(""), vec![]);
    assert!(chars_equal(&vec!['a', 'b'], "ab"));
    assert!(!chars_equal(&vec!['a', 'b'], "abc"));
    assert!(!chars_equal(&vec!['a', 'b', 'c'], "ab"));
    assert!(!chars_equal(&vec!['a', 'b'], "ac"));
    assert!(chars_equal(&vec![], ""));
    assert!(str_equal("INBOX", "INBOX"));
    assert!(!str_equal("INBOX", "inbox"));
    assert!(!str_equal("", "x"));
}

#[test]
fn join_strings_puts_separator_between() {
    let parts = vec!["a".to_string(), "".to_string(), "c".to_string()];
    assert_eq!(join_strings(&parts, ", "), "a, , c");
    assert_eq!(join_strings(&vec![], ", "), "");
    assert_eq!(join_strings(&vec!["x".to_string()], "\n"), "x");
    assert_eq!(join_strings(&vec!["".to_string(), "".to_string()], "-"), "-");
}

#[test]
fn int_or_str_coerces() {
    assert_eq!(int_or_str("12"), Value::Int(12));
    assert_eq!(int_or_str("-12"), Value::Int(-12));
    assert_eq!(int_or_str("+12"), Value::Int(12));
    assert_eq!(int_or_str("12a"), text("12a"));
    assert_eq!(int_or_str(""), text(""));
    assert_eq!(int_or_str("4294967296"), text("4294967296"));
    assert_ne!(int_or_str("3"), text("3"));
}

#[test]
fn value_vec_to_string_joins() {
    assert_eq!(
        value_vec_to_string(&[Value::Int(1), text("two"), Value::Int(-3)]),
        "1, two, -3"
    );
    assert_eq!(value_vec_to_string(&[]), "");
}

fn level(input: Option<&str>, registers: Vec<(&str, &str)>) -> Level {
    Level {
        source: String::new(),
        input: input.map(|s| s.to_string()),
        registers: registers
            .into_iter()
            .map(|(k, v)| (k.to_string(), v.to_string()))
            .collect(),
        speed_challenge: 0,
        size_challenge: 0,
    }
}

#[test]
fn level_input() {
    assert_eq!(level(None, vec![]).get_input(), vec![]);
    assert_eq!(level(Some(""), vec![]).get_input(), vec![]);
    assert_eq!(
        level(Some("1\n\nB\n-3\n"), vec![]).get_input(),
        vec![Value::Int(1), text("B"), Value::Int(-3)]
    );
    // Lines are not trimmed: a space makes a text of a number.
    assert_eq!(
        level(Some(" 1\r\n2 \n3"), vec![]).get_input(),
        vec![text(" 1"), text("2 "), Value::Int(3)]
    );
}

#[test]
fn level_registers() {
    let registers = level(None, vec![("0", "5"), ("A", "x"), ("00", "6")]).get_registers();
    assert_eq!(registers.len(), 2);
    assert_eq!(registers.get(&Value::Int(0)), Some(&Value::Int(6)));
    assert_eq!(registers.get(&text("A")), Some(&text("x")));
    assert_eq!(registers.get(&text("0")), None);
    assert_eq!(level(None, vec![]).get_registers().len(), 0);
}
