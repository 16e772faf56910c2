//! Disposition records: signed decisions that include or exclude specific
//! cryptograms from the tally, making the mix-input arithmetic publicly
//! checkable.

use crate::bytes::Bytes;
use crate::config::NamedSignature;
use crate::schema::{self, CanonicalWriter};
use vstd::prelude::*;

verus! {

/// The decision a disposition record carries.
#[derive(Debug, Clone, Copy, PartialEq, Eq, Structural)]
pub enum DispositionDecision {
    /// A provisional cryptogram is included in the tally.
    IncludeProvisional,
    /// A provisional cryptogram is excluded.
    ExcludeProvisional,
    /// A logic-and-accuracy test cryptogram is excluded.
    ExcludeTest,
    /// A cryptogram was spoiled by a ballot check (never castable).
    SpoiledByCheck,
    /// A cryptogram was voided by a misprint/jam procedure.
    VoidMisprint,
}

impl DispositionDecision {
    /// The stable single-byte tag of each decision.
    pub open spec fn spec_tag(self) -> u8 {
        match self {
            DispositionDecision::IncludeProvisional => 1,
            DispositionDecision::ExcludeProvisional => 2,
            DispositionDecision::ExcludeTest => 3,
            DispositionDecision::SpoiledByCheck => 4,
            DispositionDecision::VoidMisprint => 5,
        }
    }

    /// Stable single-byte tag used in the signing input.
    pub fn tag(self) -> (t: u8)
        ensures
            t == self.spec_tag(),
    {
        match self {
            DispositionDecision::IncludeProvisional => 1,
            DispositionDecision::ExcludeProvisional => 2,
            DispositionDecision::ExcludeTest => 3,
            DispositionDecision::SpoiledByCheck => 4,
            DispositionDecision::VoidMisprint => 5,
        }
    }

    /// Whether this decision adds the subject to the mix input (`true`) or
    /// removes it (`false`).
    pub fn includes(self) -> (r: bool)
        ensures
            r == (self is IncludeProvisional),
    {
        matches!(self, DispositionDecision::IncludeProvisional)
    }
}

/// A signed disposition for one cryptogram.
#[derive(Debug, Clone, PartialEq, Eq)]
pub struct DispositionRecord {
    /// Schema version of this artifact.
    pub schema_version: String,
    /// The election hash.
    pub election_hash: Bytes,
    /// The subject cryptogram's tracker (its submission entry hash).
    pub subject: Bytes,
    /// The decision.
    pub decision: DispositionDecision,
    /// Reason category (statutory codes; free of personal data).
    pub reason_category: String,
    /// Election-authority (and, for provisional decisions, adjudicator)
    /// signatures over [`Self::signing_input`].
    pub signatures: Vec<NamedSignature>,
}

impl DispositionRecord {
    /// The fields the signatures cover: election hash, subject, decision
    /// tag, reason category.
    pub open spec fn spec_signing_fields(&self) -> Seq<Seq<u8>> {
        seq![
            self.election_hash@,
            self.subject@,
            seq![self.decision.spec_tag()],
            schema::str_bytes(self.reason_category@),
        ]
    }

    /// The canonical input the signatures cover.
    pub open spec fn spec_signing_input(&self) -> Seq<u8> {
        schema::canonical(crate::ds_tags::DISPOSITION@, self.spec_signing_fields())
    }

    /// The canonical byte input the signatures cover.
    pub fn signing_input(&self) -> (r: Vec<u8>)
        ensures
            r@ == self.spec_signing_input(),
    {
        let mut w = CanonicalWriter::new(&crate::ds_tags::DISPOSITION);
        let d = [self.decision.tag()];
        assert(d@ =~= seq![self.decision.spec_tag()]);
        w.field(self.election_hash.as_slice());
        w.field(self.subject.as_slice());
        w.field(&d);
        w.field(self.reason_category.as_str().as_bytes());
        assert(w.fields() =~= self.spec_signing_fields());
        w.finish()
    }
}

} // verus!
