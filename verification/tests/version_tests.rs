use gcm::semver::{PreIdent, SemVer, parse_version, semver_eq, version_le_exec};
use gcm::Error;

fn v(s: &str) -> SemVer {
    match parse_version(s) {
        Ok(v) => v,
        Err(_) => panic!("expected {s} to parse"),
    }
}

fn lt(a: &str, b: &str) -> bool {
    let (pa, pb) = (v(a), v(b));
    version_le_exec(&pa, &pb) && !version_le_exec(&pb, &pa)
}

#[test]
fn parses_plain_release() {
    let p = v("1.2.3");
    assert_eq!(p.major, 1);
    assert_eq!(p.minor, 2);
    assert_eq!(p.patch, 3);
    assert!(p.pre.is_empty());
    assert!(p.build.is_empty());
    assert_eq!(p.to_version_string(), "1.2.3");
    assert_eq!(p.bucket(), "1.2");
}

#[test]
fn parses_prerelease_and_build() {
    let p = v("1.2.3-rc.1+build.05");
    assert_eq!(p.major, 1);
    assert_eq!(p.pre.len(), 2);
    assert!(matches!(p.pre[0], PreIdent::Alpha(ref a) if a == "rc"));
    assert!(matches!(p.pre[1], PreIdent::Num(1)));
    assert_eq!(p.build, vec!["build".to_string(), "05".to_string()]);
    assert_eq!(p.to_version_string(), "1.2.3-rc.1+build.05");
    assert_eq!(p.pre_release_string(), "rc.1");
}

#[test]
fn bucket_ignores_prerelease_and_build() {
    assert_eq!(v("10.42.7-alpha.3+meta").bucket(), "10.42");
    assert_eq!(v("0.0.1").bucket(), "0.0");
}

#[test]
fn large_numbers_format_exactly() {
    let p = v("18446744073709551615.0.10");
    assert_eq!(p.major, u64::MAX);
    assert_eq!(p.to_version_string(), "18446744073709551615.0.10");
}

#[test]
fn rejects_malformed_versions() {
    for s in [
        "", "1", "1.2", "1.2.3.4", "01.2.3", "1.02.3", "1.2.03", "a.b.c", "1.2.x", "1.2.3-",
        "1.2.3-01", "1.2.3-rc..1", "1.2.3+", "1.2.3+a..b", "1.2.3-r@c", "-1.2.3", "1.2.3 ",
    ] {
        assert!(
            matches!(parse_version(s), Err(Error::MalformedVersion)),
            "input {s:?}"
        );
    }
}

#[test]
fn rejects_numbers_that_do_not_fit() {
    assert!(matches!(
        parse_version("18446744073709551616.0.0"),
        Err(Error::MalformedVersion)
    ));
    assert!(matches!(
        parse_version("1.0.0-99999999999999999999"),
        Err(Error::MalformedVersion)
    ));
}

#[test]
fn prerelease_precedes_release() {
    assert!(lt("1.2.3-rc1", "1.2.3"));
    assert!(!lt("1.2.3", "1.2.3-rc1"));
}

#[test]
fn numeric_components_compare_numerically() {
    assert!(lt("1.2.3", "1.2.10"));
    assert!(lt("1.9.0", "1.10.0"));
    assert!(lt("2.0.0", "10.0.0"));
}

#[test]
fn standard_precedence_chain() {
    let chain = [
        "1.0.0-alpha",
        "1.0.0-alpha.1",
        "1.0.0-alpha.beta",
        "1.0.0-beta",
        "1.0.0-beta.2",
        "1.0.0-beta.11",
        "1.0.0-rc.1",
        "1.0.0",
    ];
    for w in chain.windows(2) {
        assert!(lt(w[0], w[1]), "{} should precede {}", w[0], w[1]);
    }
}

#[test]
fn build_metadata_ignored_for_precedence() {
    let a = v("1.2.3+one");
    let b = v("1.2.3+two");
    assert!(version_le_exec(&a, &b));
    assert!(version_le_exec(&b, &a));
    assert!(!semver_eq(&a, &b));
}

#[test]
fn equality_is_full_equality() {
    assert!(semver_eq(&v("1.2.3-rc.1+m"), &v("1.2.3-rc.1+m")));
    assert!(!semver_eq(&v("1.2.3-rc.1"), &v("1.2.3-rc.2")));
    assert!(!semver_eq(&v("1.2.3"), &v("1.2.4")));
}
