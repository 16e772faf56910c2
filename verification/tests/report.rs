use bmvs_verifier::report::{CheckStatus, Overall, VerificationReport};

#[test]
fn overall_is_fail_closed() {
    let mut r = VerificationReport::default();
    r.push("a", CheckStatus::Pass);
    assert_eq!(r.overall(), Overall::Pass);
    r.push(
        "b",
        CheckStatus::Skipped {
            reason: "staged".into(),
        },
    );
    assert_eq!(r.overall(), Overall::Partial);
    r.push(
        "c",
        CheckStatus::Fail {
            problems: vec!["boom".into()],
        },
    );
    assert_eq!(r.overall(), Overall::Fail);
}

#[test]
fn an_empty_report_passes() {
    let r = VerificationReport::default();
    assert!(r.results.is_empty());
    assert_eq!(r.overall(), Overall::Pass);
}

#[test]
fn a_failure_is_never_lifted_by_later_passes() {
    let mut r = VerificationReport::default();
    r.push(
        "x",
        CheckStatus::Fail {
            problems: vec!["bad".into()],
        },
    );
    r.push("y", CheckStatus::Pass);
    r.push(
        "z",
        CheckStatus::Skipped {
            reason: "later".into(),
        },
    );
    assert_eq!(r.overall(), Overall::Fail);
}

#[test]
fn push_keeps_name_and_status_in_order() {
    let mut r = VerificationReport::default();
    r.push("first", CheckStatus::Pass);
    r.push(
        "second",
        CheckStatus::Skipped {
            reason: "why".into(),
        },
    );
    assert_eq!(r.results.len(), 2);
    assert_eq!(r.results[0].name, "first");
    assert_eq!(r.results[0].status, CheckStatus::Pass);
    assert_eq!(r.results[1].name, "second");
    assert_eq!(
        r.results[1].status,
        CheckStatus::Skipped {
            reason: "why".into()
        }
    );
}

#[test]
fn to_text_renders_each_result_and_the_overall_line() {
    let mut r = VerificationReport::default();
    r.push("a", CheckStatus::Pass);
    r.push(
        "b",
        CheckStatus::Skipped {
            reason: "staged".into(),
        },
    );
    r.push(
        "c",
        CheckStatus::Fail {
            problems: vec!["boom".into(), "bang".into()],
        },
    );
    assert_eq!(
        r.to_text(),
        "PASS  a\nSKIP  b \u{2014} staged\nFAIL  c\n      - boom\n      - bang\noverall: FAIL \u{2014} the published record did not verify\n"
    );
}

#[test]
fn to_text_names_partial_and_full_verification() {
    let mut r = VerificationReport::default();
    r.push("a", CheckStatus::Pass);
    assert_eq!(
        r.to_text(),
        "PASS  a\noverall: PASS \u{2014} full verification\n"
    );
    r.push(
        "b",
        CheckStatus::Skipped {
            reason: "r".into(),
        },
    );
    assert!(r.to_text().ends_with(
        "overall: PARTIAL \u{2014} no failures, but skipped checks mean this is NOT a full verification\n"
    ));
}
