use qqbot::file_io::{
    daily_file_path, fortune_file_path, id_file_path, remove_prefix, total_file_path,
    wife_file_path,
};
use qqbot::tally::total_data_path;
use qqbot::text::{
    chars_of, i64_to_string, is_whitespace_char, join, parse_i64, split_whitespace, str_eq,
    u64_to_string,
};

#[test]
fn remove_prefix_strips_a_present_prefix() {
    assert_eq!(remove_prefix("./data/daily/42.json", "./data/daily"), "/42.json");
    assert_eq!(remove_prefix("abc", "abc"), "");
    assert_eq!(remove_prefix("群友老婆", "群友"), "老婆");
}

#[test]
fn remove_prefix_keeps_input_without_prefix() {
    assert_eq!(remove_prefix("./data/total/42.json", "./data/daily"), "./data/total/42.json");
    assert_eq!(remove_prefix("ab", "abc"), "ab");
    assert_eq!(remove_prefix("", ""), "");
}

#[test]
fn split_whitespace_drops_runs_of_whitespace() {
    assert_eq!(split_whitespace("  !!chat  hello\tworld \n"), vec!["!!chat", "hello", "world"]);
    assert_eq!(split_whitespace("a\u{3000}b\u{a0}c"), vec!["a", "b", "c"]);
    assert!(split_whitespace(" \t\n").is_empty());
    assert!(split_whitespace("").is_empty());
}

#[test]
fn whitespace_matches_std() {
    for c in ['\t', '\n', ' ', '\u{85}', '\u{a0}', '\u{1680}', '\u{2000}', '\u{200a}', '\u{2028}', '\u{3000}', 'a', '!', '\u{200b}', '群'] {
        assert_eq!(is_whitespace_char(c), c.is_whitespace(), "{:?}", c);
    }
}

#[test]
fn decimal_forms() {
    assert_eq!(i64_to_string(0), "0");
    assert_eq!(i64_to_string(-5), "-5");
    assert_eq!(i64_to_string(1234567890), "1234567890");
    assert_eq!(i64_to_string(i64::MIN), "-9223372036854775808");
    assert_eq!(i64_to_string(i64::MAX), "9223372036854775807");
    assert_eq!(u64_to_string(30), "30");
}

#[test]
fn parse_i64_accepts_what_std_accepts() {
    for s in ["0", "+12", "-0", "007", "-9223372036854775808", "9223372036854775807"] {
        assert_eq!(parse_i64(s), s.parse::<i64>().ok(), "{}", s);
        assert!(parse_i64(s).is_some());
    }
    assert_eq!(parse_i64("+12"), Some(12));
    assert_eq!(parse_i64("-9223372036854775808"), Some(i64::MIN));
}

#[test]
fn parse_i64_rejects_what_std_rejects() {
    for s in ["", "-", "+", "12a", " 12", "1 2", "9223372036854775808", "-9223372036854775809", "++1", "１"] {
        assert_eq!(parse_i64(s), None, "{}", s);
        assert!(s.parse::<i64>().is_err());
    }
}

#[test]
fn parse_reads_back_decimal_form() {
    for n in [0i64, 1, -1, 42, -42, 1000000007, i64::MIN, i64::MAX] {
        assert_eq!(parse_i64(&i64_to_string(n)), Some(n));
    }
}

#[test]
fn join_and_eq() {
    assert_eq!(join(&vec!["a", "b", "c"], " "), "a b c");
    assert_eq!(join(&vec!["solo"], ", "), "solo");
    assert_eq!(join(&vec![], " "), "");
    assert!(str_eq("抽签", "抽签"));
    assert!(!str_eq("抽签", "抽"));
    assert_eq!(chars_of("ab"), vec!['a', 'b']);
}

#[test]
fn data_paths() {
    assert_eq!(id_file_path("data/avatar/", 7, ".jpg"), "data/avatar/7.jpg");
    assert_eq!(daily_file_path(863770345), "./data/daily/863770345.json");
    assert_eq!(total_file_path(-3), "./data/total/-3.json");
    assert_eq!(wife_file_path(12), "./data/wife/12.json");
    assert_eq!(fortune_file_path(114514), "./data/fortune/114514.json");
    assert_eq!(total_data_path("./data/daily/42.json"), "./data/total/42.json");
    assert_eq!(total_data_path("other/42.json"), "./data/totalother/42.json");
}
