use vmb::version::SemVersion;

#[test]
fn parse_and_print_back() {
    let v = SemVersion::parse("1.2.3-alpha.1+build.5").unwrap();
    assert_eq!(v.major(), 1);
    assert_eq!(v.minor(), 2);
    assert_eq!(v.patch(), 3);
    assert_eq!(v.pre(), "alpha.1");
    assert_eq!(v.build(), "build.5");
    assert_eq!(v.to_string(), "1.2.3-alpha.1+build.5");
}

#[test]
fn parse_rejects_bad_text() {
    assert!(SemVersion::parse("01.0.0").is_none());
    assert!(SemVersion::parse("1.0").is_none());
    assert!(SemVersion::parse("").is_none());
    assert!(SemVersion::parse("1.0.0-").is_none());
    assert!(SemVersion::parse("v1.0.0").is_none());
}

#[test]
fn new_prints_numbers() {
    assert_eq!(SemVersion::new(0, 1, 0).to_string(), "0.1.0");
    assert_eq!(SemVersion::new(10, 200, 3000).to_string(), "10.200.3000");
}

#[test]
fn precedence() {
    let a = SemVersion::parse("1.0.0-alpha").unwrap();
    let b = SemVersion::parse("1.0.0").unwrap();
    let c = SemVersion::parse("1.0.0-alpha.10").unwrap();
    let d = SemVersion::parse("1.0.0-alpha.9").unwrap();
    assert_eq!(a.compare(&b), -1);
    assert_eq!(b.compare(&a), 1);
    assert_eq!(c.compare(&d), 1);
    assert_eq!(b.compare(&b.clone()), 0);
    assert_eq!(SemVersion::new(2, 0, 0).compare(&SemVersion::new(10, 0, 0)), -1);
}
