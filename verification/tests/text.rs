use timeblocks::text::{
    append_decimal, chars_of, contains_chars, parse_i64_text, parse_u32_text, text_at_least_exec,
    text_contains,
};

const SAMPLES: &[&str] = &[
    "", "0", "7", "42", "+42", "-42", "-", "+", "+-1", "--1", "007", " 1", "1 ", "1_000", "12a",
    "９", "३", "9223372036854775807", "9223372036854775808", "-9223372036854775808",
    "-9223372036854775809", "4294967295", "4294967296", "-0", "+0", "99999999999999999999999",
];

#[test]
fn i64_parse_agrees_with_std() {
    for s in SAMPLES {
        assert_eq!(parse_i64_text(s), s.parse::<i64>().ok(), "input {:?}", s);
    }
}

#[test]
fn u32_parse_agrees_with_std() {
    for s in SAMPLES {
        assert_eq!(parse_u32_text(s), s.parse::<u32>().ok(), "input {:?}", s);
    }
}

#[test]
fn parse_exact_values() {
    assert_eq!(parse_i64_text("45"), Some(45));
    assert_eq!(parse_i64_text("-17"), Some(-17));
    assert_eq!(parse_i64_text("9223372036854775808"), None);
    assert_eq!(parse_u32_text("-1"), None);
    assert_eq!(parse_u32_text("+12"), Some(12));
    assert_eq!(parse_u32_text("１０"), None);
}

#[test]
fn chars_of_keeps_every_character() {
    assert_eq!(chars_of("明天 ok"), vec!['明', '天', ' ', 'o', 'k']);
    assert_eq!(chars_of(""), Vec::<char>::new());
}

#[test]
fn substring_search() {
    assert!(text_contains("4月10日前交图论作业", "作业"));
    assert!(text_contains("作业", "作业"));
    assert!(text_contains("abc", ""));
    assert!(!text_contains("", "a"));
    assert!(!text_contains("作", "作业"));
    assert!(!text_contains("业作", "作业"));
    assert!(text_contains("aab", "ab"));
    assert!(contains_chars(&vec!['x', 'y', 'z'], &vec!['y', 'z']));
    assert!(!contains_chars(&vec!['x', 'y', 'z'], &vec!['z', 'y']));
}

#[test]
fn text_order_agrees_with_byte_order() {
    let samples = [
        "", "2024-04-08 00:00:00", "2024-04-08 00:00:00.5", "2024-04-07 23:59:59.999",
        "2024-04-10 13:45:12.123456789", "2024-04-08", "a", "b", "ab", "é", "z", "英语", "论文",
        "\u{10000}", "\u{ffff}",
    ];
    for a in samples.iter() {
        for b in samples.iter() {
            assert_eq!(text_at_least_exec(a, b), a.as_bytes() >= b.as_bytes(), "{:?} >= {:?}", a, b);
        }
    }
}

#[test]
fn decimal_numerals() {
    for n in [0u64, 1, 9, 10, 11, 99, 100, 12345, u64::MAX] {
        let mut s = String::from("Block ");
        append_decimal(&mut s, n);
        assert_eq!(s, format!("Block {}", n));
    }
}
