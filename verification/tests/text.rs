use dsv_util::text::{characters, copied, decimal_string, parse_integer, same, trim, whitespace};

#[test]
fn characters_of_a_string() {
    assert_eq!(characters("aé\u{10000}"), vec!['a', 'é', '\u{10000}']);
    assert_eq!(characters(""), Vec::<char>::new());
}

#[test]
fn same_compares_whole_strings() {
    assert!(same("", ""));
    assert!(same("abc", "abc"));
    assert!(!same("abc", "abd"));
    assert!(!same("abc", "ab"));
    assert!(!same("ab", "abc"));
    assert!(!same("é", "e"));
}

#[test]
fn copied_is_equal() {
    let names = vec!["a".to_string(), "".to_string(), "bc".to_string()];
    assert_eq!(copied(&names), names);
}

#[test]
fn whitespace_agrees_with_std_on_every_char() {
    let mut code: u32 = 0;
    while code <= 0x10FFFF {
        if let Some(c) = char::from_u32(code) {
            assert_eq!(whitespace(c), c.is_whitespace(), "code point {:x}", code);
        }
        code += 1;
    }
}

#[test]
fn trim_agrees_with_std() {
    let samples = [
        "",
        " ",
        "  amy  ",
        "amy",
        "\t\n amy bob \r\n",
        "\u{a0}x\u{3000}",
        "\u{2003}\u{2003}",
        " a",
        "a ",
        "\u{200b}a\u{200b}",
        "é ",
    ];
    for sample in samples {
        assert_eq!(trim(sample), sample.trim(), "{:?}", sample);
    }
    assert_eq!(trim("  amy  "), "amy");
    assert_eq!(trim(" \t "), "");
}

#[test]
fn decimal_string_agrees_with_std() {
    assert_eq!(decimal_string(0), "0");
    assert_eq!(decimal_string(7), "7");
    assert_eq!(decimal_string(10), "10");
    assert_eq!(decimal_string(1234567890), "1234567890");
    assert_eq!(decimal_string(usize::MAX), usize::MAX.to_string());
    let mut n: usize = 0;
    while n < 2000 {
        assert_eq!(decimal_string(n), n.to_string());
        n += 1;
    }
}

#[test]
fn parse_integer_agrees_with_std() {
    let max = isize::MAX.to_string();
    let min = isize::MIN.to_string();
    let above = "9223372036854775808";
    let below = "-9223372036854775809";
    let samples = [
        "",
        "+",
        "-",
        "0",
        "-0",
        "+0",
        "7",
        "+7",
        "-7",
        "007",
        "12a",
        "a12",
        " 12",
        "12 ",
        "1_000",
        "--1",
        "+-1",
        "1.5",
        "٣",
        max.as_str(),
        min.as_str(),
        above,
        below,
        "+9223372036854775807",
        "99999999999999999999999999999999999999999999",
        "-99999999999999999999999999999999999999999999",
        "00000000000000000000000000000000000000000001",
    ];
    for sample in samples {
        assert_eq!(parse_integer(sample), sample.parse::<isize>().ok(), "{:?}", sample);
    }
    assert_eq!(parse_integer("-42"), Some(-42));
    assert_eq!(parse_integer("+42"), Some(42));
    assert_eq!(parse_integer("x"), None);
}
