//! The complete published election record: the bundle a verifier consumes.

use crate::attestation::ChainHeadAttestation;
use crate::board::BoardSegment;
use crate::config::ElectionConfigRecord;
use crate::disposition::DispositionRecord;
use crate::tabulator::TabulatorReport;
use crate::transcript::TallyTranscript;
use vstd::prelude::*;

verus! {

/// Everything one election publishes, gathered for verification.
#[derive(Debug, Clone, PartialEq, Eq)]
pub struct ElectionRecord {
    /// The trustee-endorsed configuration (the root of trust).
    pub config: ElectionConfigRecord,
    /// All board segments, all sites and days.
    pub segments: Vec<BoardSegment>,
    /// All chain-head attestations.
    pub attestations: Vec<ChainHeadAttestation>,
    /// All disposition records.
    pub dispositions: Vec<DispositionRecord>,
    /// All tabulator reports.
    pub tabulator_reports: Vec<TabulatorReport>,
    /// The tally transcript, once published.
    pub transcript: Option<TallyTranscript>,
}

} // verus!
