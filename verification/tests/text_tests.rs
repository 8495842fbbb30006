use snare::text::{
    ci_eq_str, find_sub, find_sub_at, split_all, split_once_at, starts_with_ci_str,
    starts_with_str, str_eq, trim_str, usize_to_dec, ws_tokens,
};

#[test]
fn exact_equality() {
    assert!(str_eq("abc", "abc"));
    assert!(!str_eq("abc", "abd"));
    assert!(!str_eq("abc", "ab"));
    assert!(str_eq("", ""));
}

#[test]
fn substring_search_finds_leftmost() {
    assert_eq!(find_sub("a\r\nb\r\nc", "\r\n"), Some(1));
    assert_eq!(find_sub("abc", "\r\n"), None);
    assert_eq!(find_sub_at("a\r\nb\r\nc", "\r\n", 2), Some(4));
    assert_eq!(find_sub("", "x"), None);
}

#[test]
fn splitting_keeps_every_piece() {
    let pieces = split_all("a\r\nb\r\n\r\nc", "\r\n");
    assert_eq!(pieces, vec!["a", "b", "", "c"]);
    assert_eq!(split_all("plain", "\r\n"), vec!["plain"]);
    assert_eq!(split_all("", "\r\n"), vec![""]);
}

#[test]
fn split_once_cuts_at_first_occurrence() {
    let (head, tail) = split_once_at("h: v\r\n\r\nbody", "\r\n\r\n").unwrap();
    assert_eq!(head, "h: v");
    assert_eq!(tail, "body");
    assert!(split_once_at("no separator", "\r\n\r\n").is_none());
}

#[test]
fn whitespace_tokens_in_order() {
    assert_eq!(ws_tokens("GET /  HTTP/1.1"), vec!["GET", "/", "HTTP/1.1"]);
    assert_eq!(ws_tokens("  leading\ttab "), vec!["leading", "tab"]);
    assert!(ws_tokens("   ").is_empty());
    assert!(ws_tokens("").is_empty());
}

#[test]
fn case_insensitive_comparison_is_ascii_only() {
    assert!(ci_eq_str("Content-Length", "content-length"));
    assert!(ci_eq_str("HOST", "host"));
    assert!(!ci_eq_str("host", "hostile"));
    assert!(starts_with_str("CONNECT x", "CONNECT"));
    assert!(!starts_with_str("GET x", "CONNECT"));
    assert!(starts_with_ci_str("Host: h", "host"));
}

#[test]
fn trimming_strips_blanks_only() {
    assert_eq!(trim_str("  spaced\tvalue \t"), "spaced\tvalue");
    assert_eq!(trim_str("bare"), "bare");
    assert_eq!(trim_str("   "), "");
}

#[test]
fn decimal_rendering_is_exact() {
    assert_eq!(usize_to_dec(0), "0");
    assert_eq!(usize_to_dec(7), "7");
    assert_eq!(usize_to_dec(10), "10");
    assert_eq!(usize_to_dec(4096), "4096");
    assert_eq!(usize_to_dec(1234567890), "1234567890");
}
