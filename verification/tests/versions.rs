//! Which of two versions is newer.
use dsh_client::version::is_newer;

#[test]
fn numbers_decide_by_value() {
    assert!(is_newer("1.10.0", "1.9.0"));
    assert!(!is_newer("1.9.0", "1.10.0"));
    assert!(is_newer("2.0.0", "1.99.99"));
    assert!(is_newer("0.3.1", "0.3.0"));
    assert!(!is_newer("1.9.0", "2.0.0"));
    assert!(is_newer("0.0.100000000000000000000000000", "0.0.99999999999999999999999999"));
    assert!(!is_newer("1.007.0", "1.7.0"));
    assert!(!is_newer("1.7.0", "1.007.0"));
}

#[test]
fn numbers_that_are_missing_count_as_zero() {
    assert!(!is_newer("1.2", "1.2.0"));
    assert!(!is_newer("1.2.0", "1.2"));
    assert!(is_newer("1.2.1", "1.2"));
    assert!(is_newer("2", "1.9.9"));
}

#[test]
fn release_is_newer_than_its_pre_releases() {
    let ascending = [
        "1.0.0-alpha",
        "1.0.0-alpha.1",
        "1.0.0-alpha.beta",
        "1.0.0-beta",
        "1.0.0-beta.2",
        "1.0.0-beta.11",
        "1.0.0-rc.1",
        "1.0.0",
        "1.0.1-0",
        "1.0.1",
        "1.1.0",
        "10.0.0",
    ];
    for (i, a) in ascending.iter().enumerate() {
        for (j, b) in ascending.iter().enumerate() {
            assert_eq!(is_newer(a, b), i > j, "{a} {b}");
        }
    }
}

#[test]
fn build_does_not_count() {
    assert!(!is_newer("1.0.0+2", "1.0.0+1"));
    assert!(!is_newer("1.0.0+1-x", "1.0.0"));
    assert!(!is_newer("1.0.0", "1.0.0+1-x"));
    assert!(is_newer("1.0.1+1", "1.0.0+9"));
}

#[test]
fn text_that_is_no_version() {
    for text in ["", "latest", "v1.0.0", "1..0", "1.0.", "1.x", "1.0.0-", "1.0.0-a..b", "1.0.0-a_b", "1 0"] {
        assert!(is_newer(text, "0.0.0"), "{text}");
        assert!(is_newer(text, "nonsense"), "{text}");
        assert!(is_newer("0.0.0", text), "{text}");
        assert!(!is_newer(text, text), "{text}");
    }
}

#[test]
fn newer_is_an_order() {
    let versions = ["0.1.0", "0.1", "0.2.0-rc.1", "0.2.0-rc.x", "0.2.0", "0.10.0", "1.0.0+b"];
    for a in versions {
        assert!(!is_newer(a, a));
        for b in versions {
            assert!(!(is_newer(a, b) && is_newer(b, a)));
            for c in versions {
                assert!(!(is_newer(a, b) && is_newer(b, c)) || is_newer(a, c));
            }
        }
    }
}
