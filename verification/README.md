# bmvs_verifier

A verified public verifier for published BMVS (Ballot Marking Voting System)
election records, written in Verus.

- `src/` is the library. It holds the published artifact schema (the
  canonical byte inputs that hashes and signatures cover, with proofs that
  they are boundary-unambiguous and domain-separated), the eight checks a
  verifier runs over a record, the fail-closed report, and a hand-built mini
  election record. Every check states, in its contract, exactly the findings
  it reports; the report's overall outcome is proved to be `Pass` only when
  every check passed; the mini record is proved to pass every implemented
  check, assuming that its four submission trackers (SHA3-256 digests of
  four different inputs) are pairwise distinct, which only a hash collision
  could break.
- SHA3-256 (`sha3`) and Ed25519 (`ed25519-dalek`) are called through a few
  small trusted wrappers in `src/crypto.rs`, whose contracts name the
  results.
- `app/` is the command-line program: `bmvs-verifier verify <dir> [--json]`
  (exit 0 full pass, 1 fail, 2 partial, 64 usage or input error), and
  `bmvs-verifier gen-mini-fixture <dir>`. It reads and writes the JSON
  directory layout and renders the JSON report.
- `tests/` exercises the library on concrete values.
