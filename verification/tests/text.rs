use foc_devnet::cli::parse_usize;
use foc_devnet::order::compare_text;
use foc_devnet::text::{
    decimal,
    find_char, replace_colons, split_lines, split_on_char, starts_with, str_eq, text_contains, trim,
};

#[test]
fn lines_follow_str_lines() {
    for text in ["", "a", "a\n", "a\r\nb", "a\n\nb\n", "\n", "x\r", "x\r\n\r\n", "\r\n", "a\rb\n"] {
        let expected: Vec<String> = text.lines().map(|l| l.to_string()).collect();
        assert_eq!(split_lines(text), expected, "text {:?}", text);
    }
}

#[test]
fn split_follows_str_split() {
    for text in ["", "|", "a|b|c", "a||", "|x"] {
        let expected: Vec<String> = text.split('|').map(|l| l.to_string()).collect();
        assert_eq!(split_on_char(text, '|'), expected, "text {:?}", text);
    }
}

#[test]
fn trim_follows_str_trim() {
    for text in ["", "  ", " a b ", "\u{3000}x\u{a0}", "\t\nq\r", "abc"] {
        assert_eq!(trim(text), text.trim(), "text {:?}", text);
    }
}

#[test]
fn small_text_operations() {
    assert_eq!(replace_colons("a:b::c"), "a_b__c");
    assert!(text_contains("exited (0)", "exited"));
    assert!(text_contains("abc", ""));
    assert!(!text_contains("ab", "abc"));
    assert!(starts_with("foc-run-x", "foc-run-"));
    assert!(!starts_with("foc-ru", "foc-run-"));
    assert!(str_eq("same", "same"));
    assert!(!str_eq("same", "sane"));
    assert_eq!(find_char("a b c", ' '), 1);
    assert_eq!(find_char("abc", ' '), 3);
}

#[test]
fn text_order_follows_string_ord() {
    let samples = ["", "a", "ab", "b", "B", "é", "foc-1", "foc-10", "foc-2"];
    for a in samples {
        for b in samples {
            let expected = match a.cmp(b) {
                std::cmp::Ordering::Less => -1,
                std::cmp::Ordering::Equal => 0,
                std::cmp::Ordering::Greater => 1,
            };
            assert_eq!(compare_text(a, b), expected, "{:?} {:?}", a, b);
        }
    }
}

#[test]
fn usize_reading_follows_from_str() {
    for text in ["0", "50", "+7", "+", "", "-1", "1a", "007", "18446744073709551615", "18446744073709551616"] {
        assert_eq!(parse_usize(text), text.parse::<usize>().ok(), "text {:?}", text);
    }
}

#[test]
fn decimal_follows_to_string() {
    for n in [0u64, 7, 10, 99, 100, 12345, u64::MAX] {
        assert_eq!(decimal(n), n.to_string());
    }
}
