//! Verified schema and checks for published BMVS (Ballot Marking Voting
//! System) election records: the canonical byte inputs that signatures and
//! hashes cover, and the fail-closed checks a public verifier runs over a
//! published record.

pub mod attestation;
pub mod board;
pub mod bytes;
pub mod checks;
pub mod config;
pub mod crypto;
pub mod disposition;
pub mod ds_tags;
pub mod fixture;
pub mod instance;
pub mod keys;
pub mod record;
pub mod report;
pub mod schema;
pub mod seqs;
pub mod tabulator;
pub mod text;
pub mod transcript;

pub use attestation::{ChainHeadAttestation, SiteCounts};
pub use board::{BoardSegment, BulletinEntry, BulletinKind, EntryFlags};
pub use bytes::Bytes;
pub use config::{ElectionConfigRecord, NamedSignature, TrusteePublic};
pub use disposition::{DispositionDecision, DispositionRecord};
pub use instance::InstanceDescriptor;
pub use record::ElectionRecord;
pub use schema::{canonical_input, version_compatible, SCHEMA_VERSION};
pub use tabulator::{ContestTotals, OptionTotal, TabulatorReport};
pub use transcript::{MixRound, PartialDecryptionSet, TallyTranscript};

use report::{StatusView, VerificationReport};
use vstd::prelude::*;

verus! {

/// The results of running every check over a record: each check's name
/// with its outcome, in reporting order.
pub open spec fn record_results(record: ElectionRecord) -> Seq<(Seq<char>, StatusView)> {
    Seq::new(
        checks::check_names().len(),
        |i: int| (checks::check_names()[i], checks::check_statuses(record)[i]),
    )
}

/// Runs every check against the record and returns the report.
pub fn verify_record(record: &ElectionRecord) -> (rep: VerificationReport)
    ensures
        rep.spec_results() == record_results(*record),
{
    let cs = checks::all_checks();
    let ghost want = record_results(*record);
    let mut rep = VerificationReport::default();
    let n = cs.len();
    let mut i: usize = 0;
    while i < n
        invariant
            n == cs@.len(),
            n == checks::check_names().len(),
            want == record_results(*record),
            forall|j: int|
                0 <= j < n ==> (#[trigger] cs@[j]).spec_name() == checks::check_names()[j],
            forall|j: int, r: ElectionRecord|
                0 <= j < n ==> #[trigger] cs@[j].spec_run(r) == checks::check_statuses(r)[j],
            i <= n,
            rep.spec_results() == want.take(i as int),
        decreases n - i,
    {
        let c = &cs[i];
        let status = c.run(record);
        let name = c.name();
        rep.push(name, status);
        assert(want.take(i + 1) =~= want.take(i as int).push(want[i as int]));
        i = i + 1;
    }
    assert(want.take(n as int) =~= want);
    rep
}

} // verus!
