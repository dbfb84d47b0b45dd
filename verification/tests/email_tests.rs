use openmeet_core::email::is_valid_email;

#[test]
fn test_is_valid_email_accepts() {
    assert!(is_valid_email("test@example.com"));
    assert!(is_valid_email("a@b.co"));
    assert!(is_valid_email("first.last-x_1@sub.domain.org"));
    assert!(is_valid_email("testuserLOGIN_SUCCESS@example.com"));
    assert!(is_valid_email("user-name@my-host.net"));
    // the word class is Unicode-aware, as the accepted pattern's is
    assert!(is_valid_email("m\u{fc}ller@example.de"));
    assert!(is_valid_email("\u{e9}@a.b"));
}

#[test]
fn test_is_valid_email_rejects() {
    assert!(!is_valid_email("invalid-email"));
    assert!(!is_valid_email("not-an-email"));
    assert!(!is_valid_email(""));
    assert!(!is_valid_email("a@b"));
    assert!(!is_valid_email("@b.com"));
    assert!(!is_valid_email("a@.com"));
    assert!(!is_valid_email("a@b."));
    assert!(!is_valid_email("a b@c.de"));
    assert!(!is_valid_email("a@b@c.de"));
    assert!(!is_valid_email("a@b.c d"));
}

#[test]
fn test_email_matches_upstream_pattern() {
    let pattern = regex::Regex::new(r"^[\w\.-]+@[\w\.-]+\.\w+$").unwrap();
    let samples = [
        "test@example.com",
        "a@b.co",
        "first.last-x_1@sub.domain.org",
        "user-name@my-host.net",
        "a.b-c_d@e-f.g.hij",
        "invalid-email",
        "not-an-email",
        "",
        "a@b",
        "@b.com",
        "a@.com",
        "a@b.",
        "a b@c.de",
        "a@b@c.de",
        "a@b.c d",
        "x@y.z",
        "..@--.__",
        "-@-.-",
        "m\u{fc}ller@example.de",
        "\u{e9}@a.b",
        "\u{416}@x.y",
        "caf\u{e9}@dom.caf\u{e9}",
        "\u{1f600}@a.b",
        "a\u{20}b@c.de",
    ];
    for s in samples {
        assert_eq!(
            is_valid_email(s),
            pattern.is_match(s),
            "disagreement on {:?}",
            s
        );
    }
}
