use bmvs_verifier::ds_tags;
use bmvs_verifier::{canonical_input, version_compatible, SCHEMA_VERSION};

#[test]
fn version_compatibility_same_major() {
    assert!(version_compatible("0.1.0"));
    assert!(version_compatible("0.9.7"));
    assert!(!version_compatible("1.0.0"));
    assert!(!version_compatible(""));
}

#[test]
fn version_compatibility_compares_the_text_before_the_first_dot() {
    assert_eq!(SCHEMA_VERSION, "0.1.0");
    assert!(version_compatible("0"));
    assert!(version_compatible("0."));
    assert!(!version_compatible("00.1.0"));
    assert!(!version_compatible(".0"));
    assert!(!version_compatible("10.0"));
}

#[test]
fn canonical_input_is_boundary_unambiguous() {
    // ["ab", "c"] and ["a", "bc"] must produce different byte strings.
    let a = canonical_input(b"t", &[b"ab", b"c"]);
    let b = canonical_input(b"t", &[b"a", b"bc"]);
    assert_ne!(a, b);
}

#[test]
fn canonical_input_is_tag_then_length_prefixed_fields() {
    let out = canonical_input(b"tg", &[b"ab", b""]);
    let mut want: Vec<u8> = b"tg".to_vec();
    want.extend_from_slice(&[2, 0, 0, 0, 0, 0, 0, 0]);
    want.extend_from_slice(b"ab");
    want.extend_from_slice(&[0, 0, 0, 0, 0, 0, 0, 0]);
    assert_eq!(out, want);
    assert_eq!(canonical_input(b"x", &[]), b"x".to_vec());
}

#[test]
fn canonical_inputs_of_different_tags_differ() {
    let fields: &[&[u8]] = &[b"same"];
    let a = canonical_input(&ds_tags::ATTESTATION, fields);
    let b = canonical_input(&ds_tags::DISPOSITION, fields);
    assert_ne!(a, b);
}

#[test]
fn domain_separation_tags_are_the_published_strings() {
    assert_eq!(&ds_tags::BULLETIN_ENTRY[..], b"bmvs/v0/bulletin-entry");
    assert_eq!(&ds_tags::BOARD_SEGMENT[..], b"bmvs/v0/board-segment");
    assert_eq!(&ds_tags::ATTESTATION[..], b"bmvs/v0/attestation");
    assert_eq!(&ds_tags::DISPOSITION[..], b"bmvs/v0/disposition");
    assert_eq!(&ds_tags::TABULATOR_REPORT[..], b"bmvs/v0/tabulator-report");
    assert_eq!(&ds_tags::CONFIG[..], b"bmvs/v0/election-config");
    assert_eq!(&ds_tags::TRANSCRIPT[..], b"bmvs/v0/tally-transcript");
}
