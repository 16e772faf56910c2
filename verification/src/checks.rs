//! The verification checks. Every check is independent and read-only over
//! the record, and reports precise, per-problem findings.

pub mod labels;
pub mod structure;
pub mod chain;
pub mod attestations;
pub mod signatures;
pub mod dispositions;
pub mod accounting;
pub mod reconciliation;

use crate::record::ElectionRecord;
use crate::report::{self, CheckStatus, StatusView};
use crate::seqs::texts;
use crate::text::push_str;
use vstd::prelude::*;

verus! {

/// A verification check.
pub trait Check {
    /// The check's stable identifier.
    spec fn spec_name(&self) -> Seq<char>;

    /// What the check reports for a record.
    spec fn spec_run(&self, record: ElectionRecord) -> StatusView;

    /// Stable check identifier (appears in reports).
    fn name(&self) -> (n: &'static str)
        ensures
            n@ == self.spec_name(),
    ;

    /// Runs the check against a record.
    fn run(&self, record: &ElectionRecord) -> (s: CheckStatus)
        ensures
            s@ == self.spec_run(*record),
    ;
}

/// Structural validity: schema versions, election-hash consistency, the
/// election hash binding the configuration, roster sanity, in-band device
/// key consistency.
pub struct Structure;

impl Check for Structure {
    open spec fn spec_name(&self) -> Seq<char> {
        "structure"@
    }

    open spec fn spec_run(&self, record: ElectionRecord) -> StatusView {
        report::status_of(structure::structure_problems(record))
    }

    fn name(&self) -> (n: &'static str) {
        "structure"
    }

    fn run(&self, record: &ElectionRecord) -> (s: CheckStatus) {
        report::status_from(structure::structure_findings(record))
    }
}

/// Bulletin-board chain integrity.
pub struct ChainIntegrity;

impl Check for ChainIntegrity {
    open spec fn spec_name(&self) -> Seq<char> {
        "chain-integrity"@
    }

    open spec fn spec_run(&self, record: ElectionRecord) -> StatusView {
        report::status_of(chain::chain_problems(record))
    }

    fn name(&self) -> (n: &'static str) {
        "chain-integrity"
    }

    fn run(&self, record: &ElectionRecord) -> (s: CheckStatus) {
        report::status_from(chain::chain_findings(record))
    }
}

/// Chain-head attestations against the published segments.
pub struct Attestations;

impl Check for Attestations {
    open spec fn spec_name(&self) -> Seq<char> {
        "attestations"@
    }

    open spec fn spec_run(&self, record: ElectionRecord) -> StatusView {
        report::status_of(attestations::attestation_check_problems(record))
    }

    fn name(&self) -> (n: &'static str) {
        "attestations"
    }

    fn run(&self, record: &ElectionRecord) -> (s: CheckStatus) {
        report::status_from(attestations::attestation_findings(record))
    }
}

/// Every signature in the record.
pub struct Signatures;

impl Check for Signatures {
    open spec fn spec_name(&self) -> Seq<char> {
        "signatures"@
    }

    open spec fn spec_run(&self, record: ElectionRecord) -> StatusView {
        report::status_of(signatures::signature_problems(record))
    }

    fn name(&self) -> (n: &'static str) {
        "signatures"
    }

    fn run(&self, record: &ElectionRecord) -> (s: CheckStatus) {
        report::status_from(signatures::signature_findings(record))
    }
}

/// Disposition validity and mix-input completeness.
pub struct Dispositions;

impl Check for Dispositions {
    open spec fn spec_name(&self) -> Seq<char> {
        "dispositions"@
    }

    open spec fn spec_run(&self, record: ElectionRecord) -> StatusView {
        dispositions::dispositions_status(record)
    }

    fn name(&self) -> (n: &'static str) {
        "dispositions"
    }

    fn run(&self, record: &ElectionRecord) -> (s: CheckStatus) {
        dispositions::dispositions_check(record)
    }
}

/// Card accounting: board counts against the tabulator reports.
pub struct Accounting;

impl Check for Accounting {
    open spec fn spec_name(&self) -> Seq<char> {
        "card-accounting"@
    }

    open spec fn spec_run(&self, record: ElectionRecord) -> StatusView {
        report::status_of(accounting::accounting_problems(record))
    }

    fn name(&self) -> (n: &'static str) {
        "card-accounting"
    }

    fn run(&self, record: &ElectionRecord) -> (s: CheckStatus) {
        report::status_from(accounting::accounting_findings(record))
    }
}

/// The reconciliation identity between the cryptographic tally and the
/// tabulators' totals.
pub struct Reconciliation;

impl Check for Reconciliation {
    open spec fn spec_name(&self) -> Seq<char> {
        "reconciliation"@
    }

    open spec fn spec_run(&self, record: ElectionRecord) -> StatusView {
        reconciliation::reconciliation_status(record)
    }

    fn name(&self) -> (n: &'static str) {
        "reconciliation"
    }

    fn run(&self, record: &ElectionRecord) -> (s: CheckStatus) {
        reconciliation::reconciliation_check(record)
    }
}

/// Why the cryptographic proofs are not verified yet.
pub open spec fn proofs_staged_reason() -> Seq<char> {
    "proof verification (Naor-Yung, shuffle, decryption) is staged for milestone M1: the opaque transcript payloads are decoded and checked against the kernel once the product's fixture round-trip fixes the kernel-object encodings"@
}

/// Cryptographic proof verification (ballot proofs, shuffle proofs,
/// decryption proofs), staged for milestone M1: always skipped.
pub struct CryptographicProofs;

impl Check for CryptographicProofs {
    open spec fn spec_name(&self) -> Seq<char> {
        "cryptographic-proofs"@
    }

    open spec fn spec_run(&self, record: ElectionRecord) -> StatusView {
        StatusView::Skipped(proofs_staged_reason())
    }

    fn name(&self) -> (n: &'static str) {
        "cryptographic-proofs"
    }

    fn run(&self, record: &ElectionRecord) -> (s: CheckStatus) {
        let mut reason = String::new();
        push_str(
            &mut reason,
            "proof verification (Naor-Yung, shuffle, decryption) is staged for milestone M1: the opaque transcript payloads are decoded and checked against the kernel once the product's fixture round-trip fixes the kernel-object encodings",
        );
        CheckStatus::Skipped { reason }
    }
}

/// The names of all checks, in reporting order.
pub open spec fn check_names() -> Seq<Seq<char>> {
    seq![
        "structure"@,
        "chain-integrity"@,
        "attestations"@,
        "signatures"@,
        "dispositions"@,
        "card-accounting"@,
        "reconciliation"@,
        "cryptographic-proofs"@,
    ]
}

/// What each check reports for a record, in reporting order.
pub open spec fn check_statuses(record: ElectionRecord) -> Seq<StatusView> {
    seq![
        report::status_of(structure::structure_problems(record)),
        report::status_of(chain::chain_problems(record)),
        report::status_of(attestations::attestation_check_problems(record)),
        report::status_of(signatures::signature_problems(record)),
        dispositions::dispositions_status(record),
        report::status_of(accounting::accounting_problems(record)),
        reconciliation::reconciliation_status(record),
        StatusView::Skipped(proofs_staged_reason()),
    ]
}

/// All checks, in reporting order.
#[verifier::spinoff_prover]
#[verifier::rlimit(40)]
pub fn all_checks() -> (cs: Vec<Box<dyn Check>>)
    ensures
        cs@.len() == check_names().len(),
        forall|i: int|
            0 <= i < cs@.len() ==> (#[trigger] cs@[i]).spec_name() == check_names()[i],
        forall|i: int, r: ElectionRecord|
            0 <= i < cs@.len() ==> #[trigger] cs@[i].spec_run(r) == check_statuses(r)[i],
{
    let cs: Vec<Box<dyn Check>> = vec![
        Box::new(Structure),
        Box::new(ChainIntegrity),
        Box::new(Attestations),
        Box::new(Signatures),
        Box::new(Dispositions),
        Box::new(Accounting),
        Box::new(Reconciliation),
        Box::new(CryptographicProofs),
    ];
    cs
}

} // verus!
