use rust_rtsp_server::text::{
    chars_of, contains_chars, find_chars, join_strings, parse_i32_chars, push_decimal,
    push_signed_decimal, split_chars, string_of,
};

fn split_str(s: &str, p: &str) -> Vec<String> {
    let text = chars_of(s);
    split_chars(&text, &chars_of(p))
        .iter()
        .map(|v| v.iter().collect::<String>())
        .collect()
}

#[test]
fn split_matches_str_split() {
    for (s, p) in [
        ("a\r\nb\r\n\r\n", "\r\n"),
        ("", "\r\n"),
        ("CSeq: 5: 6", ": "),
        ("no separator", ";"),
        ("aaa", "aa"),
        ("x;;y;", ";"),
    ] {
        let expected: Vec<String> = s.split(p).map(|x| x.to_string()).collect();
        assert_eq!(split_str(s, p), expected);
    }
}

#[test]
fn find_and_contains() {
    let text = chars_of("one\r\n\r\ntwo");
    let end = chars_of("\r\n\r\n");
    assert_eq!(find_chars(&text, &end, 0), Some(3));
    assert_eq!(find_chars(&text, &end, 4), None);
    assert!(contains_chars(&text, &end));
    assert!(!contains_chars(&chars_of("one\r\ntwo"), &end));
}

#[test]
fn join_matches_slice_join() {
    let lines = vec!["a".to_string(), String::new(), "\r\n".to_string()];
    assert_eq!(join_strings(&lines, "\r\n"), lines.join("\r\n"));
    assert_eq!(join_strings(&Vec::new(), "\r\n"), "");
}

#[test]
fn decimal_rendering() {
    for n in [0u64, 7, 10, 76, 12000, u64::MAX] {
        let mut s = String::new();
        push_decimal(&mut s, n);
        assert_eq!(s, n.to_string());
    }
    for n in [0i32, -1, 42, i32::MIN, i32::MAX] {
        let mut s = String::from("x");
        push_signed_decimal(&mut s, n);
        assert_eq!(s, format!("x{}", n));
    }
}

#[test]
fn parse_i32_matches_str_parse() {
    for s in [
        "0", "12", "+7", "-7", "-", "+", "", "007", "2147483647", "2147483648", "-2147483648",
        "-2147483649", "1a", " 1", "99999999999999999999", "-0",
    ] {
        assert_eq!(parse_i32_chars(&chars_of(s)), s.parse::<i32>().ok(), "{:?}", s);
    }
}

#[test]
fn text_round_trip_of_integers() {
    for n in [0i32, 5, -5, 1234567, i32::MIN, i32::MAX] {
        let mut s = String::new();
        push_signed_decimal(&mut s, n);
        assert_eq!(parse_i32_chars(&chars_of(&s)), Some(n));
    }
}

#[test]
fn string_of_part() {
    let text = chars_of("héllo");
    assert_eq!(string_of(&text, 1, 4), "éll");
}
