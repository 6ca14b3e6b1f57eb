use zc::model::Bump;
use zc::version_req::{classify_bump, req_norm, req_version};

#[test]
fn normalizes_caret_and_metadata() {
    assert_eq!(req_norm(" ^1.0.0 "), "1.0.0");
    assert_eq!(req_norm("1.0.0-rc1"), "1.0.0");
    assert_eq!(req_norm("1.0.0+build.7"), "1.0.0");
    assert_eq!(req_norm("1.0.0-alpha-beta"), "1.0.0");
}

#[test]
fn extracts_first_version_literal() {
    assert_eq!(req_version("^1.2.3"), "1.2.3");
    assert_eq!(req_version("~0.29"), "0.29");
    assert_eq!(req_version("=0.0.1"), "0.0.1");
    assert_eq!(req_version(">=0.29, <0.31"), "0.29");
    assert_eq!(req_version("0.29.*"), "0.29");
    assert_eq!(req_version("*"), "");
}

#[test]
fn prerelease_graduation_is_not_a_requirement_change() {
    assert_eq!(req_norm("1.0.0-rc1"), req_norm("1.0.0"));
    assert_eq!(classify_bump("1.0.0-rc1", "1.0.0"), Bump::Patch);
}

#[test]
fn classifies_caret_compatibility_boundaries() {
    assert_eq!(classify_bump("1.2.3", "2.0.0"), Bump::Major);
    assert_eq!(classify_bump("1.2.3", "1.3.0"), Bump::Minor);
    assert_eq!(classify_bump("1.2.3", "1.2.4"), Bump::Patch);
    assert_eq!(classify_bump("0.1", "0.2"), Bump::Major);
    assert_eq!(classify_bump("0.1.1", "0.1.2"), Bump::Patch);
    assert_eq!(classify_bump("0.29", "0.30"), Bump::Major);
    assert_eq!(classify_bump("0.0.1", "0.0.2"), Bump::Major);
    assert_eq!(classify_bump("0.0.1", "0.0.1"), Bump::Patch);
}

#[test]
fn operators_and_wildcards_reduce_to_the_version_they_start_at() {
    assert_eq!(classify_bump("~0.29", "~0.30"), Bump::Major);
    assert_eq!(classify_bump("=0.0.1", "=0.0.2"), Bump::Major);
    assert_eq!(classify_bump("0.30.0-pre.0", "0.30.0"), Bump::Patch);
    assert_eq!(classify_bump(">=0.29, <0.31", ">=0.30, <0.32"), Bump::Major);
    assert_eq!(classify_bump("0.29", "^0.29"), Bump::Patch);
    assert_eq!(classify_bump("0.29.*", "0.30.*"), Bump::Major);
    assert_eq!(classify_bump("*", "*"), Bump::Patch);
}

#[test]
fn unchanged_floor_with_changed_text_is_unknown() {
    assert_eq!(
        classify_bump(">=0.29, <0.31", ">=0.29, <0.30"),
        Bump::Unknown
    );
    assert_eq!(
        classify_bump(">=0.29, <0.31", ">=0.29, <0.32"),
        Bump::Unknown
    );
    assert_eq!(classify_bump(">=0.29", ">0.29"), Bump::Unknown);
    assert_eq!(classify_bump("^0.29", "~0.29"), Bump::Unknown);
}

#[test]
fn classification_is_symmetric_and_reflexive_on_samples() {
    for (a, b) in [("1.2.3", "2.0.0"), ("0.1", "0.2"), (">=0.29", ">0.29"), ("1.0", "1.1")] {
        assert_eq!(classify_bump(a, b), classify_bump(b, a));
        assert_eq!(classify_bump(a, a), Bump::Patch);
    }
}

#[test]
fn whitespace_inside_a_requirement_is_ignored() {
    assert_eq!(req_norm("> = 1 . 2"), ">=1.2");
    assert_eq!(req_version("\u{a0}1.2."), "1.2");
}
