use azalea_bot::ansi::strip_ansi_codes;
use azalea_bot::decimal::{decimal, parse_number};
use azalea_bot::text::{
    chars_of, contains_char, is_white_space, joined, remove_all, same_text, split_words,
    text_between, trim,
};

const SAMPLES: [&str; 9] = [
    "",
    " ",
    "hello",
    "  hello world ",
    "\t-23.4\u{3000}10.8\n",
    "一 二\u{a0}三",
    "a\u{200b}b",
    "\u{85}x\u{2028}",
    "nullnunullll null",
];

#[test]
fn white_space_is_what_unicode_says() {
    for n in 0..=0x10ffffu32 {
        if let Some(c) = char::from_u32(n) {
            assert_eq!(is_white_space(c), c.is_whitespace(), "{:x}", n);
        }
    }
}

#[test]
fn words_and_trimming() {
    for s in SAMPLES {
        let words: Vec<String> = s.split_whitespace().map(|w| w.to_string()).collect();
        assert_eq!(split_words(s), words);
        assert_eq!(trim(s), s.trim());
    }
    assert_eq!(split_words(" -23.4   10.8 "), vec!["-23.4".to_string(), "10.8".to_string()]);
    assert_eq!(trim(" /home \r\n"), "/home");
}

#[test]
fn taking_parts_out() {
    for s in SAMPLES {
        assert_eq!(remove_all(s, "null"), s.replace("null", ""));
    }
    assert_eq!(remove_all("atk: null\nuse: 3\n", "null"), "atk: \nuse: 3\n");
    assert_eq!(remove_all("aaaaa", "aa"), "a");
    assert_eq!(remove_all("nunullll", "null"), "null");
}

#[test]
fn small_text_operations() {
    assert_eq!(chars_of("a机"), vec!['a', '机']);
    assert_eq!(text_between(&vec!['a', '机', 'c'], 1, 3), "机c");
    assert_eq!(joined("a", "|", "b"), "a|b");
    assert!(same_text("look", "look"));
    assert!(!same_text("look", "loo"));
    assert!(!same_text("look", "lock"));
    assert!(contains_char("me@example.org", '@'));
    assert!(!contains_char("example.org", '@'));
}

#[test]
fn numbers_are_read() {
    let big = usize::MAX.to_string();
    let bigger = format!("{}0", usize::MAX);
    let next = format!("{}", usize::MAX as u128 + 1);
    let list = [
        "", "+", "-", "0", "7", "+7", "-7", "-0", "++7", "007", "10", " 10", "10 ", "1_0", "1e3",
        "３", "abc", "18446744073709551615", "99999999999999999999999x",
    ];
    for s in list.iter().copied().chain([big.as_str(), bigger.as_str(), next.as_str()]) {
        assert_eq!(parse_number(s), s.parse::<usize>().ok(), "{}", s);
    }
    assert_eq!(parse_number("+12"), Some(12));
    assert_eq!(parse_number("twelve"), None);
}

#[test]
fn numbers_are_written() {
    for n in [0u64, 9, 10, 99, 1_700_000_000, 1_000_000_007, u64::MAX] {
        assert_eq!(decimal(n), n.to_string().into_bytes());
    }
    assert_eq!(decimal(1024), vec![49, 48, 50, 52]);
}

#[test]
fn control_codes_are_taken_out() {
    assert_eq!(strip_ansi_codes("\x1b[31mred\x1b[0m plain"), "red plain");
    assert_eq!(strip_ansi_codes("\x1b[38;2;255;85;85m<Steve> 你好\x1b[m"), "<Steve> 你好");
    assert_eq!(strip_ansi_codes("cut\x1b[31"), "cut");
    assert_eq!(strip_ansi_codes("a\x1b\x1b[1mb"), "ab");
    assert_eq!(strip_ansi_codes(""), "");
}

#[test]
fn text_without_codes_is_kept() {
    assert_eq!(strip_ansi_codes("[31m is no code 机器人"), "[31m is no code 机器人");
}

#[test]
fn stripping_twice_is_stripping_once() {
    let once = strip_ansi_codes("\x1b[1ma\x1b[0mb");
    assert_eq!(once, "ab");
    assert_eq!(strip_ansi_codes(&once), once);
    assert!(!once.contains('\x1b'));
}

#[test]
fn a_code_leaves_no_trace() {
    assert_eq!(strip_ansi_codes("before\x1b[1;2Kafter"), "beforeafter");
}
