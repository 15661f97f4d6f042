use kiwi_downloader::text::{
    decimal_string, ends_with, parse_u32, split_chars, starts_with, str_eq, to_ascii_lowercase, trim_whitespace,
};

#[test]
fn decimal_strings() {
    assert_eq!(decimal_string(0), "0");
    assert_eq!(decimal_string(10), "10");
    assert_eq!(decimal_string(u32::MAX), "4294967295");
}

#[test]
fn parse_matches_std() {
    for s in ["0", "42", "+7", "0042", "4294967295", "4294967296", "", "+", "-1", " 1", "1 ", "x", "99999999999"] {
        assert_eq!(parse_u32(s), s.parse::<u32>().ok(), "input {s:?}");
    }
}

#[test]
fn lowercase_and_trim_match_std() {
    for s in ["ABC", "MiXeD 123", "Ünïcode É", ""] {
        assert_eq!(to_ascii_lowercase(s), s.to_ascii_lowercase());
    }
    for s in ["  a b  ", "\t\nx\u{3000}", "", "   ", "\u{85}y\u{2029}"] {
        assert_eq!(trim_whitespace(s), s.trim());
    }
}

#[test]
fn comparisons() {
    assert!(str_eq("abc", "abc"));
    assert!(!str_eq("abc", "abd"));
    let v: Vec<char> = "hello".chars().collect();
    assert!(starts_with(&v, &['h', 'e']));
    assert!(!starts_with(&v, &['e']));
    assert!(ends_with(&v, &['l', 'o']));
    assert!(!ends_with(&['o'], &['l', 'o']));
}

#[test]
fn splitting_matches_std() {
    for s in ["a:b:c", "::", "", "abc", "format:tok:video:"] {
        let v: Vec<char> = s.chars().collect();
        let got: Vec<String> = split_chars(&v, ':').into_iter().map(|p| p.into_iter().collect()).collect();
        let want: Vec<String> = s.split(':').map(|p| p.to_string()).collect();
        assert_eq!(got, want);
    }
}
