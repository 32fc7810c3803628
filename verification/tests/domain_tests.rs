use iocguard::allowlist::Allowlist;
use iocguard::domain::{
    check_suspicious, load_allowlist, normalize, parse_csv_line, process_line, strip_trailing_dot,
    validate, DomainRecord, DomainStatus,
};
use iocguard::error::DomainError;

// === Required tests from specification ===

#[test]
fn test_normalize_example_com() {
    assert_eq!(normalize("Example.COM"), "example.com");
}

#[test]
fn test_normalize_trailing_dot() {
    assert_eq!(normalize("updates.example.org."), "updates.example.org");
}

#[test]
fn test_reject_consecutive_dots() {
    let result = validate("bad..domain");
    assert_eq!(result, Err(DomainError::ConsecutiveDots));
}

#[test]
fn test_reject_hyphen_prefix() {
    let result = validate("-malformed.com");
    assert!(result.is_err());
    // The label "-malformed" starts with a hyphen
    assert_eq!(
        result,
        Err(DomainError::LabelHyphenEdge("-malformed".to_string()))
    );
}

#[test]
fn test_suspicious_valid_but_suspicious() {
    let normalized = normalize("paypa1-login.xyz");
    assert_eq!(normalized, "paypa1-login.xyz");
    assert!(validate(&normalized).is_ok());

    let allowlist = Allowlist::new();
    let result = check_suspicious(&normalized, &allowlist);
    assert!(result.is_some());
}

#[test]
fn test_allowlisted_not_suspicious() {
    let mut allowlist = Allowlist::new();
    allowlist.insert("paypa1-login.xyz".to_string());
    let result = check_suspicious("paypa1-login.xyz", &allowlist);
    assert!(result.is_none());
}

// === Additional edge case tests ===

#[test]
fn test_empty_domain() {
    assert_eq!(validate(""), Err(DomainError::Empty));
}

#[test]
fn test_no_dot() {
    assert_eq!(validate("localhost"), Err(DomainError::NoDot));
}

#[test]
fn test_long_label() {
    let long = "a".repeat(64) + ".com";
    assert_eq!(validate(&long), Err(DomainError::LabelTooLong(64)));
}

#[test]
fn test_long_domain() {
    let long = "a".repeat(254);
    assert!(validate(&long).is_err());
}

#[test]
fn test_normalize_trim() {
    assert_eq!(normalize("  example.com  "), "example.com");
}

#[test]
fn test_parse_csv_line_valid() {
    let result = parse_csv_line("example.com,manual");
    assert_eq!(result, Ok(("example.com", "manual")));
}

#[test]
fn test_parse_csv_line_missing_comma() {
    assert!(parse_csv_line("example.com").is_err());
}

#[test]
fn test_parse_csv_line_empty_domain() {
    assert!(parse_csv_line(",source").is_err());
}

#[test]
fn test_suspicious_xn() {
    let allowlist = Allowlist::new();
    let result = check_suspicious("xn--phishing-test.com", &allowlist);
    assert!(result.is_some());
    assert!(result.unwrap().contains("xn--"));
}

#[test]
fn test_suspicious_tld() {
    let allowlist = Allowlist::new();
    let result = check_suspicious("test.xyz", &allowlist);
    assert!(result.is_some());
    assert!(result.unwrap().contains("xyz"));
}

#[test]
fn test_suspicious_keywords() {
    let allowlist = Allowlist::new();
    let result = check_suspicious("login-example.com", &allowlist);
    assert!(result.is_some());
    assert!(result.unwrap().contains("login"));
}

#[test]
fn test_suspicious_three_hyphens() {
    let allowlist = Allowlist::new();
    let result = check_suspicious("a-b-c-d.com", &allowlist);
    assert!(result.is_some());
    assert!(result.unwrap().contains("hyphens"));
}

#[test]
fn test_process_line_rejected() {
    let allowlist = Allowlist::new();
    let record = process_line("bad..domain", "proxy_log", &allowlist);
    assert_eq!(record.status, DomainStatus::Rejected);
    assert!(record.reason.contains("consecutive dots"));
}

#[test]
fn test_process_line_accepted() {
    let mut allowlist = Allowlist::new();
    allowlist.insert("example.com".to_string());
    let record = process_line("example.com", "manual", &allowlist);
    assert_eq!(record.status, DomainStatus::Accepted);
}

#[test]
fn test_process_line_suspicious() {
    let allowlist = Allowlist::new();
    let record = process_line("paypa1-login.xyz", "email_gateway", &allowlist);
    assert_eq!(record.status, DomainStatus::Suspicious);
}

#[test]
fn test_load_allowlist() {
    let content = "example.com\nsafe-school.edu\n";
    let allowlist = load_allowlist(content);
    assert!(allowlist.contains("example.com"));
    assert!(allowlist.contains("safe-school.edu"));
    assert_eq!(allowlist.len(), 2);
}

// === Bonus: Edge case tests ===

#[test]
fn test_domain_with_underscore() {
    assert_eq!(
        validate("bad_domain.com"),
        Err(DomainError::InvalidCharacter('_'))
    );
}

#[test]
fn test_domain_with_space() {
    assert_eq!(
        validate("bad domain.com"),
        Err(DomainError::InvalidCharacter(' '))
    );
}

#[test]
fn test_domain_with_uppercase_after_normalize() {
    // After normalization, uppercase becomes lowercase, so this should be valid
    let normalized = normalize("HELLO.COM");
    assert_eq!(normalized, "hello.com");
    assert!(validate(&normalized).is_ok());
}

#[test]
fn test_allowlist_with_trailing_dot() {
    // Allowlist entries are normalized too
    let content = "example.com.\n";
    let allowlist = load_allowlist(content);
    assert!(allowlist.contains("example.com"));
}

#[test]
fn test_multiple_consecutive_dots() {
    assert_eq!(validate("a...b.com"), Err(DomainError::ConsecutiveDots));
}

#[test]
fn test_trailing_dot_valid() {
    // After normalization, trailing dot is removed
    let normalized = normalize("test.example.com.");
    assert_eq!(normalized, "test.example.com");
    assert!(validate(&normalized).is_ok());
}

#[test]
fn test_hyphen_suffix_label() {
    assert_eq!(
        validate("example-.com"),
        Err(DomainError::LabelHyphenEdge("example-".to_string()))
    );
}

#[test]
fn test_all_suspicious_tlds() {
    let allowlist = Allowlist::new();
    for tld in &["zip", "mov", "top", "xyz", "tk"] {
        let domain = format!("test.{}", tld);
        let result = check_suspicious(&domain, &allowlist);
        assert!(result.is_some(), "TLD .{} should be suspicious", tld);
        assert!(
            result.unwrap().contains(tld),
            "Reason should mention .{}",
            tld
        );
    }
}

#[test]
fn test_all_suspicious_keywords() {
    let allowlist = Allowlist::new();
    for kw in &["login", "verify", "secure", "update", "paypa1"] {
        let domain = format!("{}-test.com", kw);
        let result = check_suspicious(&domain, &allowlist);
        assert!(result.is_some(), "Keyword '{}' should be suspicious", kw);
        assert!(
            result.unwrap().contains(kw),
            "Reason should mention '{}'",
            kw
        );
    }
}

#[test]
fn test_exactly_253_chars() {
    // 63 + '.' + 63 + '.' + 63 + '.' + 61 = 253
    let label = "a".repeat(63);
    let domain = format!("{}.{}.{}.{}", label, label, label, "a".repeat(61));
    assert_eq!(
        domain.len(),
        253,
        "Expected 253 chars, got {}",
        domain.len()
    );
    assert!(validate(&domain).is_ok());
}

#[test]
fn test_exactly_254_chars() {
    // 63 + '.' + 63 + '.' + 63 + '.' + 62 = 254
    let label = "a".repeat(63);
    let domain = format!("{}.{}.{}.{}", label, label, label, "a".repeat(62));
    assert_eq!(
        domain.len(),
        254,
        "Expected 254 chars, got {}",
        domain.len()
    );
    assert!(validate(&domain).is_err());
}

// === Further cases: exact errors, messages and the rules' edges ===

#[test]
fn test_too_long_reports_byte_length() {
    let long = "a".repeat(254);
    assert_eq!(validate(&long), Err(DomainError::NoDot));
    let dotted = format!("{}.com", "a".repeat(250));
    assert_eq!(validate(&dotted), Err(DomainError::TooLong(254)));
}

#[test]
fn test_label_length_counts_bytes() {
    // 32 two-byte characters make a 64-byte label
    let label = "\u{e9}".repeat(32);
    let domain = format!("{}.com", label);
    assert_eq!(validate(&domain), Err(DomainError::LabelTooLong(64)));
    let shorter = format!("{}.com", "\u{e9}".repeat(31));
    assert_eq!(validate(&shorter), Err(DomainError::InvalidCharacter('\u{e9}')));
}

#[test]
fn test_empty_label_at_edges() {
    assert_eq!(validate(".com"), Err(DomainError::EmptyLabel));
    assert_eq!(validate("example.com."), Err(DomainError::EmptyLabel));
}

#[test]
fn test_first_broken_label_is_reported() {
    assert_eq!(
        validate("ok.-bad.worse-.com"),
        Err(DomainError::LabelHyphenEdge("-bad".to_string()))
    );
}

#[test]
fn test_label_rules_before_character_rule() {
    assert_eq!(
        validate("Bad-.com"),
        Err(DomainError::LabelHyphenEdge("Bad-".to_string()))
    );
    assert_eq!(validate("Bad.com"), Err(DomainError::InvalidCharacter('B')));
}

#[test]
fn test_validation_messages() {
    assert_eq!(DomainError::Empty.to_string(), "Domain is empty");
    assert_eq!(DomainError::NoDot.to_string(), "Domain has no dot");
    assert_eq!(
        DomainError::TooLong(300).to_string(),
        "Domain length 300 exceeds maximum of 253"
    );
    assert_eq!(
        DomainError::ConsecutiveDots.to_string(),
        "Domain contains consecutive dots"
    );
    assert_eq!(
        DomainError::EmptyLabel.to_string(),
        "Domain contains an empty label"
    );
    assert_eq!(
        DomainError::LabelTooLong(64).to_string(),
        "A label of length 64 exceeds maximum of 63"
    );
    assert_eq!(
        DomainError::LabelHyphenEdge("-x".to_string()).to_string(),
        "Label '-x' starts or ends with a hyphen"
    );
    assert_eq!(
        DomainError::InvalidCharacter('_').to_string(),
        "Domain contains invalid character '_'"
    );
    assert_eq!(
        DomainError::CsvParseError("Empty line".to_string()).to_string(),
        "CSV parse error: Empty line"
    );
}

#[test]
fn test_normalize_unicode_whitespace_and_case() {
    assert_eq!(normalize("\u{a0}\tExample.COM.\r\n"), "example.com");
    assert_eq!(normalize("a.."), "a.");
    assert_eq!(normalize("   "), "");
}

#[test]
fn test_strip_trailing_dot() {
    assert_eq!(strip_trailing_dot("a.b."), "a.b");
    assert_eq!(strip_trailing_dot("a.b"), "a.b");
    assert_eq!(strip_trailing_dot("a.."), "a.");
    assert_eq!(strip_trailing_dot(""), "");
}

#[test]
fn test_suspicion_reasons_joined() {
    let allowlist = Allowlist::new();
    let result = check_suspicious("xn--login-a-b-c.top", &allowlist);
    assert_eq!(
        result,
        Some(
            "contains 'xn--' prefix (internationalized domain); \
             top-level domain '.top' is suspicious; \
             contains keyword 'login'; \
             contains 5 hyphens (>= 3)"
                .to_string()
        )
    );
}

#[test]
fn test_only_first_keyword_reported() {
    let allowlist = Allowlist::new();
    let result = check_suspicious("secure-login.com", &allowlist);
    assert_eq!(result, Some("contains keyword 'login'".to_string()));
}

#[test]
fn test_two_hyphens_not_suspicious() {
    let allowlist = Allowlist::new();
    assert_eq!(check_suspicious("a-b-c.com", &allowlist), None);
    assert_eq!(check_suspicious("example.com", &allowlist), None);
    assert_eq!(check_suspicious("zip.com", &allowlist), None);
}

#[test]
fn test_parse_csv_line_errors() {
    assert_eq!(
        parse_csv_line("   "),
        Err(DomainError::CsvParseError("Empty line".to_string()))
    );
    assert_eq!(
        parse_csv_line("example.com"),
        Err(DomainError::CsvParseError(
            "Missing comma separator".to_string()
        ))
    );
    assert_eq!(
        parse_csv_line(" ,source"),
        Err(DomainError::CsvParseError("Domain field is empty".to_string()))
    );
}

#[test]
fn test_parse_csv_line_first_comma_and_trim() {
    assert_eq!(
        parse_csv_line("  a.com, feed,extra \n"),
        Ok(("a.com", " feed,extra"))
    );
    assert_eq!(parse_csv_line("a.com,"), Ok(("a.com", "")));
}

#[test]
fn test_process_line_fields() {
    let allowlist = Allowlist::new();
    let record = process_line(" Login.Example.COM. ", "feed", &allowlist);
    assert_eq!(record.original, " Login.Example.COM. ");
    assert_eq!(record.source, "feed");
    assert_eq!(record.normalized, Some("login.example.com".to_string()));
    assert_eq!(record.status, DomainStatus::Suspicious);
    assert_eq!(record.reason, "contains keyword 'login'");

    let rejected = process_line("no_dot", "feed", &allowlist);
    assert_eq!(rejected.normalized, None);
    assert_eq!(rejected.reason, "Domain has no dot");
}

#[test]
fn test_allowlisted_suspicious_domain_is_accepted() {
    let allowlist = load_allowlist("Paypa1-Login.XYZ.\n");
    let record = process_line("paypa1-login.xyz", "mail", &allowlist);
    assert_eq!(record.status, DomainStatus::Accepted);
    assert_eq!(record.reason, "");
}

#[test]
fn test_load_allowlist_lines() {
    let allowlist = load_allowlist("  A.com \r\n\n.\nb.org\na.com\n");
    assert!(allowlist.contains("a.com"));
    assert!(allowlist.contains("b.org"));
    assert!(!allowlist.contains(""));
    assert_eq!(allowlist.len(), 2);
}

#[test]
fn test_allowlist_insert() {
    let mut allowlist = Allowlist::new();
    assert_eq!(allowlist.len(), 0);
    assert!(allowlist.insert("a.com".to_string()));
    assert!(!allowlist.insert("a.com".to_string()));
    assert!(allowlist.contains("a.com"));
    assert!(!allowlist.contains("b.com"));
    assert_eq!(allowlist.len(), 1);
}

#[test]
fn test_record_constructors_and_status_text() {
    let a = DomainRecord::accepted("A.com".to_string(), "a.com".to_string(), "s".to_string());
    assert_eq!(a.status, DomainStatus::Accepted);
    assert_eq!(a.reason, "");
    let s = DomainRecord::suspicious(
        "x".to_string(),
        "x.tk".to_string(),
        "s".to_string(),
        "why".to_string(),
    );
    assert_eq!(s.status, DomainStatus::Suspicious);
    assert_eq!(s.reason, "why");
    let r = DomainRecord::rejected("bad".to_string(), "s".to_string(), "no".to_string());
    assert_eq!(r.normalized, None);
    assert_eq!(DomainStatus::Accepted.to_string(), "accepted");
    assert_eq!(DomainStatus::Suspicious.to_string(), "suspicious");
    assert_eq!(DomainStatus::Rejected.to_string(), "rejected");
}

#[test]
fn test_white_space_set_matches_char_is_whitespace() {
    for v in 0u32..=0x10FFFF {
        if let Some(c) = char::from_u32(v) {
            assert_eq!(
                iocguard::text::char_is_whitespace(c),
                c.is_whitespace(),
                "U+{:04X}",
                v
            );
        }
    }
}

#[test]
fn test_normalize_stable_on_valid() {
    for d in &[" Example.COM. ", "paypa1-login.xyz", "A-B.c0m"] {
        let n = normalize(d);
        assert!(validate(&n).is_ok());
        assert_eq!(normalize(&n), n);
    }
    // Not valid: normalizing again may change it further
    assert_eq!(normalize("a.."), "a.");
    assert_eq!(normalize("a."), "a");
}

#[test]
fn test_normalize_non_ascii_lowercase() {
    assert_eq!(normalize("\u{c9}XAMPLE.COM"), "\u{e9}xample.com");
}
