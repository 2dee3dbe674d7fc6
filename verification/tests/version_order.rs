use cargo_upgrades::version::Version;

fn v(s: &str) -> Version {
    Version::parse(s).unwrap()
}

#[test]
fn beta_vs_stable() {
    let beta11 = Version::parse("1.0.1-beta.1").unwrap();
    let beta1 = Version::parse("1.0.0-beta.1").unwrap();
    let v100 = Version::parse("1.0.0").unwrap();
    assert!(v100 > beta1);
    assert!(beta11 > beta1);
    assert!(beta11 > v100);
}

#[test]
fn numeric_identifiers_compare_numerically() {
    assert!(v("1.0.0-beta.2") < v("1.0.0-beta.11"));
    assert!(v("1.0.0-9") < v("1.0.0-10"));
    assert!(v("1.0.0-99") < v("1.0.0-100"));
}

#[test]
fn numeric_sorts_before_alphanumeric() {
    assert!(v("1.0.0-1") < v("1.0.0-alpha"));
    assert!(v("1.0.0-999") < v("1.0.0-1a"));
}

#[test]
fn shorter_identifier_sequence_is_smaller() {
    assert!(v("1.0.0-alpha") < v("1.0.0-alpha.1"));
    assert!(v("1.0.0-alpha.1") < v("1.0.0-alpha.1.0"));
}

#[test]
fn alphanumeric_identifiers_compare_lexically() {
    assert!(v("1.0.0-alpha") < v("1.0.0-beta"));
    assert!(v("1.0.0-alpha.x") < v("1.0.0-alpha.y"));
    assert!(v("1.0.0-rc-1") < v("1.0.0-rc-2"));
}

#[test]
fn triple_decides_before_prerelease() {
    assert!(v("0.9.9") < v("1.0.0-alpha"));
    assert!(v("1.2.3") < v("1.2.4"));
    assert!(v("1.2.3") < v("1.3.0"));
    assert!(v("1.2.3") < v("2.0.0"));
}

#[test]
fn build_metadata_ignored() {
    assert_eq!(v("1.0.0+build.5"), v("1.0.0"));
    assert_eq!(v("1.0.0+a"), v("1.0.0+b"));
    assert!(!(v("1.0.0+a") < v("1.0.0+b")));
    assert!(!(v("1.0.0+a") > v("1.0.0+b")));
}

#[test]
fn equal_versions_compare_equal() {
    assert_eq!(v("1.2.3-rc.1"), v("1.2.3-rc.1"));
    assert!(v("1.2.3-rc.1") != v("1.2.3-rc.2"));
    assert!(v("1.2.3") != v("1.2.4"));
}

#[test]
fn parse_reads_the_fields() {
    let p = v("1.22.333-alpha.7+meta.9");
    assert_eq!(p.major(), 1);
    assert_eq!(p.minor(), 22);
    assert_eq!(p.patch(), 333);
    assert!(p.is_prerelease());
    assert_eq!(p.text(), "1.22.333-alpha.7+meta.9");
    let s = v("2.0.0");
    assert!(!s.is_prerelease());
    assert_eq!(s.text(), "2.0.0");
}

#[test]
fn malformed_strings_do_not_parse() {
    assert!(Version::parse("").is_none());
    assert!(Version::parse("1.2").is_none());
    assert!(Version::parse("1.2.x").is_none());
    assert!(Version::parse("01.0.0").is_none());
    assert!(Version::parse("1.0.0-").is_none());
    assert!(Version::parse("1.0.0-beta..1").is_none());
    assert!(Version::parse("not a version").is_none());
}

#[test]
fn duplicate_is_equal() {
    let a = v("1.2.3-rc.1+build");
    let b = a.duplicate();
    assert_eq!(a, b);
    assert_eq!(b.text(), "1.2.3-rc.1+build");
}
