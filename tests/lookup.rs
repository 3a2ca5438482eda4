use cargo_search2::{
    derive_key, key_bytes, preview, resolve, search, select_version, Identifier, Requirement,
    Version,
};

fn strings(items: &[&str]) -> Vec<String> {
    items.iter().map(|s| s.to_string()).collect()
}

fn req(text: &str) -> Requirement {
    Requirement::parse(text).expect("valid requirement")
}

fn v(text: &str) -> Version {
    Version::parse(text).expect("valid version")
}

#[test]
fn default_requirement_takes_prerelease() {
    let versions = strings(&["1.0.0", "1.2.0", "2.0.0-beta"]);
    let chosen = select_version(&versions, &Requirement::any()).unwrap();
    assert_eq!(chosen.to_text(), "2.0.0-beta");
}

#[test]
fn malformed_entry_is_skipped() {
    let with_bad = strings(&["1.0.0", "not-a-version", "1.3.0", "0.5.0"]);
    let without = strings(&["1.0.0", "1.3.0", "0.5.0"]);
    let r = req("^1");
    let a = select_version(&with_bad, &r).unwrap();
    let b = select_version(&without, &r).unwrap();
    assert_eq!(a.to_text(), "1.3.0");
    assert_eq!(a.to_text(), b.to_text());
}

#[test]
fn only_malformed_entries_find_nothing() {
    let versions = strings(&["not-a-version", "1.0", "x.y.z"]);
    assert!(select_version(&versions, &Requirement::any()).is_none());
}

#[test]
fn empty_match_reports_preview() {
    let versions = strings(&["1.0.0", "1.1.0"]);
    let e = resolve("demo", &versions, &req(">=9.9.9")).err().unwrap();
    assert_eq!(e.crate_name, "demo");
    assert_eq!(e.requirement, ">=9.9.9");
    assert_eq!(e.preview, strings(&["1.1.0", "1.0.0"]));
    assert_eq!(e.remaining, 0);
    assert_eq!(
        e.message(),
        "for crate demo, no matching versions for req >=9.9.9 (versions found: 1.1.0, 1.0.0 and 0 more)"
    );
}

#[test]
fn preview_is_capped() {
    let versions: Vec<String> = (0..10).map(|i| format!("0.{}.0", i)).collect();
    let e = resolve("many", &versions, &req(">=5.0.0")).err().unwrap();
    assert_eq!(e.preview.len(), 8);
    assert_eq!(e.preview[0], "0.9.0");
    assert_eq!(e.preview[7], "0.2.0");
    assert_eq!(e.remaining, 2);
    assert!(e.message().ends_with(" and 2 more)"));
}

#[test]
fn no_versions_gives_empty_preview() {
    let versions: Vec<String> = Vec::new();
    let e = resolve("empty", &versions, &Requirement::any()).err().unwrap();
    assert!(e.preview.is_empty());
    assert_eq!(e.remaining, 0);
    let (shown, left) = preview(&versions);
    assert!(shown.is_empty());
    assert_eq!(left, 0);
}

#[test]
fn end_to_end_demo() {
    let versions = strings(&["0.9.0", "1.0.0", "1.1.0"]);
    let out = search("demo", &versions, &req("^1.0"), 0).ok().unwrap();
    assert_eq!(out.crate_name, "demo");
    assert_eq!(out.version.to_text(), "1.1.0");
    assert_eq!(out.hash, "blake2b24:0775e32d3c1d9dce3144e14a6ba04a5372488adf96d90a1a");
    let again = search("demo", &versions, &req("^1.0"), 0).ok().unwrap();
    assert_eq!(out.hash, again.hash);
}

#[test]
fn key_is_deterministic() {
    let a = derive_key("demo", &v("1.1.0"), 7);
    let b = derive_key("demo", &v("1.1.0"), 7);
    assert_eq!(a, b);
    assert!(a.starts_with("blake2b24:"));
    assert_eq!(a.len(), "blake2b24:".len() + 48);
    assert!(a["blake2b24:".len()..].chars().all(|c| c.is_ascii_digit() || ('a'..='f').contains(&c)));
}

#[test]
fn salt_changes_key() {
    let a = derive_key("demo", &v("1.1.0"), 0);
    let b = derive_key("demo", &v("1.1.0"), 1);
    assert_ne!(a, b);
    assert_eq!(b, "blake2b24:a3c606f0e08835686c59b389749e19a855bbd77f43469051");
}

#[test]
fn version_changes_key() {
    let a = derive_key("demo", &v("1.1.0"), 0);
    let b = derive_key("demo", &v("1.1.1"), 0);
    let c = derive_key("demo", &v("1.1.0+build"), 0);
    assert_ne!(a, b);
    assert_ne!(a, c);
}

#[test]
fn key_bytes_layout() {
    let bytes = key_bytes("a", &v("1.2.3"), 258);
    assert_eq!(
        bytes,
        vec![b'a', 0, b'1', b'.', b'2', b'.', b'3', 0, 0, 0, 0, 0, 0, 0, 1, 2]
    );
}

#[test]
fn order_picks_maximum() {
    let versions = strings(&["1.0.0-alpha", "0.9.9", "1.0.0", "1.0.0-beta.11", "1.0.0-beta.2"]);
    let chosen = select_version(&versions, &Requirement::any()).unwrap();
    assert_eq!(chosen.to_text(), "1.0.0");
}

#[test]
fn prerelease_precedence() {
    let chain = [
        "1.0.0-alpha",
        "1.0.0-alpha.1",
        "1.0.0-alpha.beta",
        "1.0.0-beta",
        "1.0.0-beta.2",
        "1.0.0-beta.11",
        "1.0.0-rc.1",
        "1.0.0",
        "1.0.1",
        "1.1.0",
        "2.0.0",
    ];
    for w in chain.windows(2) {
        assert_eq!(v(w[0]).compare(&v(w[1])), -1, "{} < {}", w[0], w[1]);
        assert_eq!(v(w[1]).compare(&v(w[0])), 1, "{} > {}", w[1], w[0]);
    }
    assert_eq!(v("1.2.3+a").compare(&v("1.2.3+b")), 0);
}

#[test]
fn identifier_precedence() {
    let n = Identifier::Numeric(5);
    let a = Identifier::AlphaNumeric("abc".to_string());
    assert_eq!(n.compare(&a), -1);
    assert_eq!(a.compare(&n), 1);
    assert_eq!(Identifier::Numeric(11).compare(&Identifier::Numeric(2)), 1);
}

#[test]
fn canonical_text() {
    assert_eq!(v("1.2.3-alpha.1+build.5").to_text(), "1.2.3-alpha.1+build.5");
    assert_eq!(v("10.20.30").to_text(), "10.20.30");
    let parsed = v("0.1.2-rc.3");
    assert_eq!(parsed.major, 0);
    assert_eq!(parsed.patch, 2);
    assert_eq!(
        parsed.pre,
        vec![Identifier::AlphaNumeric("rc".to_string()), Identifier::Numeric(3)]
    );
}

#[test]
fn bad_inputs_are_refused() {
    assert!(Version::parse("not-a-version").is_none());
    assert!(Requirement::parse("not a req !!").is_none());
}

#[test]
fn requirement_filters() {
    let r = req("~1.2");
    assert!(r.matches(&v("1.2.9")));
    assert!(!r.matches(&v("1.3.0")));
    assert!(Requirement::any().matches(&v("0.0.1-pre")));
    assert_eq!(Requirement::any().text(), "*");
    let versions = strings(&["1.2.0", "1.3.0", "1.2.7"]);
    assert_eq!(select_version(&versions, &r).unwrap().to_text(), "1.2.7");
}

#[test]
fn equal_precedence_keeps_first() {
    let versions = strings(&["1.0.0+first", "1.0.0+second"]);
    let chosen = select_version(&versions, &Requirement::any()).unwrap();
    assert_eq!(chosen.to_text(), "1.0.0+first");
}

#[test]
fn many_hyphens_are_skipped() {
    let long = format!("1.0.0-{}a", "a-".repeat(300));
    assert!(Version::parse(&long).is_none());
    let versions = vec!["1.0.0".to_string(), long, "1.1.0".to_string()];
    let chosen = select_version(&versions, &Requirement::any()).unwrap();
    assert_eq!(chosen.to_text(), "1.1.0");
    let within = format!("1.0.0-{}a", "a-".repeat(10));
    assert!(Version::parse(&within).is_some());
}

#[test]
fn long_numbers_in_requirement_are_refused() {
    assert!(Requirement::parse(">=99999999999999999999").is_none());
    assert!(Requirement::parse("^18446744073709551615").is_none());
    assert!(Requirement::parse(">=9999999999999999999").is_some());
}

#[test]
fn key_has_fixed_length() {
    let a = derive_key("a-much-longer-package-name", &v("10.20.30-rc.1+build.7"), u64::MAX);
    assert_eq!(a.len(), 58);
    let b = derive_key("x", &v("0.0.0"), 0);
    assert_eq!(b.len(), 58);
}
