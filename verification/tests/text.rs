use rapstat::order::{sort_entries_by_key, text_less};
use rapstat::text::{
    chars_of, contains_chars, find_chars, i64_text, is_whitespace_char, join_strings, lines_of,
    pad_left_text, pad_right_text, starts_with_chars, str_eq, string_of, to_ascii_lower, trim_chars,
    u64_text, usize_text,
};

fn cs(s: &str) -> Vec<char> {
    s.chars().collect()
}

#[test]
fn decimal_texts() {
    assert_eq!(u64_text(0), "0");
    assert_eq!(u64_text(u64::MAX), "18446744073709551615");
    assert_eq!(usize_text(407), "407");
    assert_eq!(i64_text(-12), "-12");
    assert_eq!(i64_text(i64::MIN), "-9223372036854775808");
    assert_eq!(i64_text(5), "5");
}

#[test]
fn padding_counts_characters() {
    assert_eq!(pad_left_text("7", 3), "  7");
    assert_eq!(pad_left_text("1234", 3), "1234");
    assert_eq!(pad_right_text("ab", 4), "ab  ");
    assert_eq!(pad_right_text("é", 2), "é ");
}

#[test]
fn trimming_and_whitespace() {
    assert_eq!(string_of(&trim_chars(&cs(" \t x y \r\n"))), "x y");
    assert_eq!(string_of(&trim_chars(&cs("\u{3000}z\u{a0}"))), "z");
    assert!(is_whitespace_char('\u{2028}'));
    assert!(!is_whitespace_char('\u{200b}'));
    assert_eq!(chars_of("añb"), vec!['a', 'ñ', 'b']);
}

#[test]
fn searching_in_text() {
    assert_eq!(find_chars(&cs("a---b---"), &cs("---")), Some(1));
    assert_eq!(find_chars(&cs("abc"), &cs("x")), None);
    assert_eq!(find_chars(&cs("abc"), &cs("")), Some(0));
    assert!(contains_chars(&cs("status: missing"), &cs("missing")));
    assert!(starts_with_chars(&cs("## Head"), &cs("## ")));
    assert!(!starts_with_chars(&cs("#"), &cs("## ")));
}

#[test]
fn lines_like_str_lines() {
    let got: Vec<String> = lines_of(&cs("a\r\nb\n\nc")).iter().map(string_of).collect();
    assert_eq!(got, vec!["a", "b", "", "c"]);
    let trailing: Vec<String> = lines_of(&cs("x\n")).iter().map(string_of).collect();
    assert_eq!(trailing, vec!["x"]);
    assert!(lines_of(&cs("")).is_empty());
}

#[test]
fn small_string_operations() {
    assert_eq!(to_ascii_lower("ReAdY-Ä"), "ready-Ä");
    assert!(str_eq("abc", "abc"));
    assert!(!str_eq("abc", "abd"));
    assert_eq!(join_strings(&vec!["a".to_string(), "b".to_string(), "c".to_string()], ", "), "a, b, c");
    assert_eq!(join_strings(&vec![], ", "), "");
}

#[test]
fn texts_order_by_characters() {
    assert!(text_less("Sprint1", "Sprint2"));
    assert!(text_less("Sprint1", "Sprint10"));
    assert!(text_less("Sprint10", "Sprint2"));
    assert!(!text_less("b", "b"));
    assert!(text_less("Z", "a"));
    let sorted = sort_entries_by_key(vec![("b".to_string(), 1), ("a".to_string(), 2), ("b".to_string(), 3)]);
    assert_eq!(sorted, vec![("a".to_string(), 2), ("b".to_string(), 1), ("b".to_string(), 3)]);
}

#[test]
fn lines_agree_with_str_lines() {
    for s in ["", "\n", "a", "a\n", "a\r\n", "a\r", "\r\n\r\n", "a\n\nb\r\nc\r", "x\ry\nz", "é\n\u{2028}\n"] {
        let got: Vec<String> = lines_of(&cs(s)).iter().map(string_of).collect();
        let want: Vec<String> = s.lines().map(|l| l.to_string()).collect();
        assert_eq!(got, want, "lines of {:?}", s);
    }
}

#[test]
fn trim_agrees_with_str_trim() {
    for s in ["", "  ", " a ", "\u{85}b\u{2029}", "\u{feff}c", "d\u{200b}", "\t\u{3000}e f\u{1680}"] {
        assert_eq!(string_of(&trim_chars(&cs(s))), s.trim(), "trim of {:?}", s);
    }
}

#[test]
fn text_helpers_agree_with_std() {
    let words = ["", "a", "A", "ab", "aB", "b", "Sprint10", "Sprint2", "é", "e\u{301}", "Z", "zz"];
    for a in words {
        assert_eq!(to_ascii_lower(a), a.to_ascii_lowercase());
        for b in words {
            assert_eq!(text_less(a, b), a < b, "{:?} < {:?}", a, b);
            assert_eq!(str_eq(a, b), a == b);
            assert_eq!(find_chars(&cs(a), &cs(b)).map(|k| a.chars().take(k).collect::<String>().len()), a.find(b));
        }
    }
}
