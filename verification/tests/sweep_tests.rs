use snare::forward::Method;
use snare::sweep::{
    attack_method, attack_pairs, build_attack_request, classify_attack_response,
    is_accepted_status, next_candidate, normalize_host, parse_attack_type, probe_url, AttackType,
};

#[test]
fn attack_type_names() {
    assert_eq!(parse_attack_type("form"), AttackType::Form);
    assert_eq!(parse_attack_type("basic"), AttackType::Basic);
    assert_eq!(parse_attack_type("anything"), AttackType::Basic);
}

#[test]
fn attack_methods() {
    assert_eq!(attack_method(AttackType::Form), Method::Post);
    assert_eq!(attack_method(AttackType::Basic), Method::Get);
}

#[test]
fn basic_attack_encodes_credentials() {
    // base64("user:pass") — wrong if the encoder handed its input back.
    let r = build_attack_request("https://t/login", "user", "pass", AttackType::Basic);
    assert_eq!(r.method, Method::Get);
    assert_eq!(r.url, "https://t/login");
    assert_eq!(
        r.headers,
        vec![("Authorization".to_string(), "Basic dXNlcjpwYXNz".to_string())]
    );
    assert!(r.body.is_none());
}

#[test]
fn form_attack_posts_credentials() {
    let r = build_attack_request("https://t/login", "u", "p", AttackType::Form);
    assert_eq!(r.method, Method::Post);
    assert_eq!(r.body.as_deref(), Some("username=u&password=p"));
    assert_eq!(
        r.headers,
        vec![(
            "Content-Type".to_string(),
            "application/x-www-form-urlencoded".to_string()
        )]
    );
}

#[test]
fn classification_follows_status_class() {
    assert_eq!(
        classify_attack_response(200, "u", "p"),
        Some(("u".to_string(), "p".to_string()))
    );
    assert!(classify_attack_response(302, "u", "p").is_some());
    assert!(classify_attack_response(399, "u", "p").is_some());
    assert!(classify_attack_response(401, "u", "p").is_none());
    assert!(classify_attack_response(404, "u", "p").is_none());
    assert!(classify_attack_response(199, "u", "p").is_none());
}

#[test]
fn pairs_are_the_cross_product() {
    let users = vec!["a".to_string(), "b".to_string()];
    let passwords = vec!["1".to_string(), "2".to_string()];
    assert_eq!(
        attack_pairs(&users, &passwords),
        vec![
            ("a".to_string(), "1".to_string()),
            ("a".to_string(), "2".to_string()),
            ("b".to_string(), "1".to_string()),
            ("b".to_string(), "2".to_string()),
        ]
    );
}

#[test]
fn pairs_with_empty_wordlist_are_empty() {
    let users: Vec<String> = vec![];
    let passwords = vec!["1".to_string()];
    assert!(attack_pairs(&users, &passwords).is_empty());
}

#[test]
fn host_normalization_drops_one_slash() {
    assert_eq!(normalize_host("http://h/"), "http://h");
    assert_eq!(normalize_host("http://h"), "http://h");
    assert_eq!(normalize_host(""), "");
}

#[test]
fn probe_urls_join_with_slash() {
    assert_eq!(probe_url("http://h", "admin"), "http://h/admin");
}

#[test]
fn accepted_statuses_are_the_report_set() {
    for code in [200u16, 201, 202, 301, 403] {
        assert!(is_accepted_status(code));
    }
    for code in [204u16, 302, 404, 500] {
        assert!(!is_accepted_status(code));
    }
}

#[test]
fn wordlist_lines_are_trimmed_and_blank_lines_skipped() {
    assert_eq!(next_candidate("  admin  ").as_deref(), Some("admin"));
    assert_eq!(next_candidate("admin"), Some("admin".to_string()));
    assert_eq!(next_candidate(""), None);
    assert_eq!(next_candidate("   "), None);
}
