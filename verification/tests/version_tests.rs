use mops_cli::version::{guess_version_from_tag, parse_version, version_lt, SemVer};

fn sv(s: &str) -> SemVer {
    parse_version(s).expect("version should parse")
}

#[test]
fn parse_plain_version_fields() {
    let v = sv("1.2.3");
    assert_eq!(v.major, 1);
    assert_eq!(v.minor, 2);
    assert_eq!(v.patch, 3);
    assert_eq!(v.pre, "");
    assert_eq!(v.build, "");
}

#[test]
fn parse_pre_release_and_build() {
    let v = sv("1.0.0-alpha.1+build.5");
    assert_eq!(v.major, 1);
    assert_eq!(v.pre, "alpha.1");
    assert_eq!(v.build, "build.5");
}

#[test]
fn parse_rejects_bad_versions() {
    assert!(parse_version("1.2").is_none());
    assert!(parse_version("v1.2.3").is_none());
    assert!(parse_version("1.02.3").is_none());
    assert!(parse_version("not-a-version").is_none());
    assert!(parse_version("").is_none());
}

#[test]
fn order_by_numeric_components() {
    assert!(version_lt(&sv("1.2.3"), &sv("2.0.0")));
    assert!(version_lt(&sv("1.2.3"), &sv("1.3.0")));
    assert!(version_lt(&sv("1.2.3"), &sv("1.2.10")));
    assert!(!version_lt(&sv("1.2.3"), &sv("1.2.3")));
    assert!(!version_lt(&sv("2.0.0"), &sv("1.9.9")));
}

#[test]
fn order_pre_release_chain() {
    // The canonical precedence chain of the SemVer specification.
    let chain = [
        "1.0.0-alpha",
        "1.0.0-alpha.1",
        "1.0.0-alpha.beta",
        "1.0.0-beta",
        "1.0.0-beta.2",
        "1.0.0-beta.11",
        "1.0.0-rc.1",
        "1.0.0",
    ];
    for w in chain.windows(2) {
        assert!(
            version_lt(&sv(w[0]), &sv(w[1])),
            "{} should precede {}",
            w[0],
            w[1]
        );
        assert!(!version_lt(&sv(w[1]), &sv(w[0])));
    }
}

#[test]
fn numeric_identifiers_compare_by_magnitude() {
    assert!(version_lt(&sv("1.0.0-pre.8"), &sv("1.0.0-pre.12")));
    assert!(version_lt(&sv("1.0.0-pre12"), &sv("1.0.0-pre8")));
}

#[test]
fn guess_version_from_release_tags() {
    assert_eq!(guess_version_from_tag("v1.2.0").as_deref(), Some("1.2.0"));
    assert_eq!(
        guess_version_from_tag("moc-0.9.8").as_deref(),
        Some("0.9.8")
    );
    assert_eq!(guess_version_from_tag("0.3.0").as_deref(), Some("0.3.0"));
    assert!(guess_version_from_tag("no-digits-here").is_none());
    assert!(guess_version_from_tag("v1.2").is_none());
}
