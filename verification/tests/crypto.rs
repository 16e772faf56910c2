use bmvs_verifier::crypto::{hash256, verify_signature, SignatureFailure};
use bmvs_verifier::fixture::mini_record;

fn hex(b: &[u8]) -> String {
    b.iter().map(|x| format!("{x:02x}")).collect()
}

#[test]
fn hash256_is_sha3_256() {
    assert_eq!(
        hex(&hash256(b"")),
        "a7ffc6f8bf1ed76651c14756a061d662f580ff4de43b49fa82d80a4b80f8434a"
    );
    assert_eq!(
        hex(&hash256(b"abc")),
        "3a985da74fe225b2045c172d6bd390bd855f086e3e9d525b46bfe24511431532"
    );
}

#[test]
fn a_fixture_signature_verifies_over_its_own_input_only() {
    let r = mini_record();
    let seg = &r.segments[0];
    let input = seg.signing_input();
    assert_eq!(
        verify_signature(seg.dbb_verifying_key.as_slice(), &input, seg.signature.as_slice()),
        None
    );
    let att = &r.attestations[0];
    assert_eq!(
        verify_signature(seg.dbb_verifying_key.as_slice(), &input, att.signature.as_slice()),
        Some(SignatureFailure::VerificationFailed)
    );
    let mut other = input.clone();
    other.push(0);
    assert_eq!(
        verify_signature(seg.dbb_verifying_key.as_slice(), &other, seg.signature.as_slice()),
        Some(SignatureFailure::VerificationFailed)
    );
}

#[test]
fn malformed_keys_and_signatures_are_named() {
    let r = mini_record();
    let seg = &r.segments[0];
    let input = seg.signing_input();
    assert_eq!(
        verify_signature(&[1, 2, 3], &input, seg.signature.as_slice()),
        Some(SignatureFailure::MalformedKey)
    );
    assert_eq!(
        verify_signature(seg.dbb_verifying_key.as_slice(), &input, &[0; 63]),
        Some(SignatureFailure::MalformedSignature)
    );
    // A key check comes before the signature's length check.
    assert_eq!(
        verify_signature(&[], &input, &[]),
        Some(SignatureFailure::MalformedKey)
    );
}

#[test]
fn election_hash_leaves_out_the_hash_and_the_endorsements() {
    let r = mini_record();
    let mut c = r.config.clone();
    assert_eq!(hash256(&c.signing_input()).to_vec(), c.election_hash.0);
    let before = c.signing_input();
    c.election_hash = bmvs_verifier::Bytes::new(vec![9; 32]);
    c.signatures.clear();
    assert_eq!(c.signing_input(), before);
    c.manifest.push('!');
    assert_ne!(c.signing_input(), before);
}

#[test]
fn fresh_fixtures_have_fresh_keys_but_the_same_shape() {
    let a = mini_record();
    let b = mini_record();
    assert_ne!(a.config.trustees[0].verifying_key, b.config.trustees[0].verifying_key);
    assert_eq!(a.config.manifest, b.config.manifest);
    assert_eq!(a.segments[0].entries.len(), b.segments[0].entries.len());
    assert_eq!(a.transcript.as_ref().map(|t| t.tallies.clone()), b.transcript.as_ref().map(|t| t.tallies.clone()));
}

#[test]
fn authorities_are_not_part_of_the_election_hash_input() {
    let r = mini_record();
    let mut c = r.config.clone();
    let before = c.signing_input();
    c.authorities.clear();
    assert_eq!(c.signing_input(), before);
    assert_eq!(hash256(&before).to_vec(), r.config.election_hash.0);
}
