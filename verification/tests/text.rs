use pls_core::text::{
    compare_code_points, i64_to_string, parse_i64, replace_char, split_on, starts_with, str_eq,
};

#[test]
fn str_eq_tells_texts_apart() {
    assert!(str_eq("", ""));
    assert!(str_eq("verb", "verb"));
    assert!(!str_eq("verb", "verbs"));
    assert!(!str_eq("verbs", "verb"));
    assert!(!str_eq("pāli", "pali"));
    assert!(str_eq("pāli", "pāli"));
}

#[test]
fn starts_with_follows_the_prefix() {
    assert!(starts_with("ababa 1", "ab"));
    assert!(starts_with("ababa 1", ""));
    assert!(starts_with("ab", "ab"));
    assert!(!starts_with("a", "ab"));
    assert!(!starts_with("ba", "ab"));
    assert!(!starts_with("", "a"));
}

#[test]
fn replace_char_replaces_every_occurrence() {
    assert_eq!(replace_char("a nt", ' ', '_'), "a_nt");
    assert_eq!(replace_char(" eti pr ", ' ', '_'), "_eti_pr_");
    assert_eq!(replace_char("", ' ', '_'), "");
    assert_eq!(replace_char("ābādh", ' ', '_'), "ābādh");
}

#[test]
fn split_on_keeps_empty_pieces() {
    assert_eq!(split_on("a,ā,aṃ", ','), vec!["a", "ā", "aṃ"]);
    assert_eq!(split_on("", ','), vec![""]);
    assert_eq!(split_on(",", ','), vec!["", ""]);
    assert_eq!(split_on("a,", ','), vec!["a", ""]);
    assert_eq!(split_on(",a", ','), vec!["", "a"]);
    assert_eq!(split_on("abc", ','), vec!["abc"]);
}

#[test]
fn split_on_agrees_with_the_standard_library() {
    for text in ["", "a", ",", ",,", "a,b", "a,,b", ",a,b,", "āṃ,ḷ"] {
        let expected: Vec<String> = text.split(',').map(|piece| piece.to_string()).collect();
        assert_eq!(split_on(text, ','), expected);
    }
}

#[test]
fn i64_to_string_writes_decimal_digits() {
    assert_eq!(i64_to_string(0), "0");
    assert_eq!(i64_to_string(7), "7");
    assert_eq!(i64_to_string(10), "10");
    assert_eq!(i64_to_string(102), "102");
    assert_eq!(i64_to_string(-1), "-1");
    assert_eq!(i64_to_string(-120), "-120");
    assert_eq!(i64_to_string(i64::MAX), "9223372036854775807");
    assert_eq!(i64_to_string(i64::MIN), "-9223372036854775808");
}

#[test]
fn parse_i64_reads_what_the_standard_library_reads() {
    for text in [
        "0",
        "7",
        "34911",
        "-1",
        "+5",
        "007",
        "-0",
        "9223372036854775807",
        "9223372036854775808",
        "-9223372036854775808",
        "-9223372036854775809",
        "99999999999999999999999",
        "",
        "-",
        "+",
        "1a",
        "a1",
        " 1",
        "1 ",
        "--1",
        "1-",
        "١",
    ] {
        assert_eq!(parse_i64(text), text.parse::<i64>().ok(), "{}", text);
    }
}

#[test]
fn parse_i64_reads_back_what_i64_to_string_writes() {
    for n in [0i64, 1, -1, 9, 10, 99, 100, 34911, -34911, i64::MAX, i64::MIN] {
        assert_eq!(parse_i64(&i64_to_string(n)), Some(n));
    }
}

#[test]
fn compare_code_points_agrees_with_the_standard_library() {
    let texts = ["", "a", "ab", "b", "ā", "aā", "z", "ṃ", "aa", "a "];
    for a in texts {
        for b in texts {
            let expected = match a.cmp(b) {
                std::cmp::Ordering::Less => -1,
                std::cmp::Ordering::Equal => 0,
                std::cmp::Ordering::Greater => 1,
            };
            assert_eq!(compare_code_points(a, b), expected, "{} against {}", a, b);
        }
    }
}
