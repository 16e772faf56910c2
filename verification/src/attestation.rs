//! Chain-head attestations: the printed, publicly posted close-out records
//! that bind each site's local board to the later central publication.

use crate::bytes::Bytes;
use crate::schema::{self, le64_bytes, CanonicalWriter};
use vstd::prelude::*;

verus! {

/// Entry counts at a site close, as printed on the attestation.
#[derive(Debug, Clone, Copy, PartialEq, Eq, Default, Structural)]
pub struct SiteCounts {
    /// Ballot submissions recorded this day (all kinds).
    pub submitted: u64,
    /// Non-provisional casts recorded this day.
    pub cast: u64,
    /// Spoil entries recorded this day (Benaloh checks and voids).
    pub spoiled: u64,
    /// Provisional casts recorded this day (pending disposition at close).
    pub provisional_pending: u64,
}

/// A chain-head attestation for one site and day.
#[derive(Debug, Clone, PartialEq, Eq)]
pub struct ChainHeadAttestation {
    /// Schema version of this artifact.
    pub schema_version: String,
    /// The election hash.
    pub election_hash: Bytes,
    /// Site identifier.
    pub site_id: String,
    /// Voting day (ISO-8601 date).
    pub day: String,
    /// The board head at close; must equal the matching segment's
    /// `segment_head`.
    pub head: Bytes,
    /// Counts at close.
    pub counts: SiteCounts,
    /// SHA3-256 hashes of each tabulator's signed end-of-day report.
    pub tabulator_report_hashes: Vec<Bytes>,
    /// The controller's (DBB) Ed25519 verifying key.
    pub dbb_verifying_key: Bytes,
    /// DBB Ed25519 signature over [`Self::signing_input`].
    pub signature: Bytes,
}

/// The single field of one report hash.
pub open spec fn hash_field(h: Bytes) -> Seq<Seq<u8>> {
    seq![h@]
}

impl ChainHeadAttestation {
    /// The fields the DBB signature covers: election hash, site, day, head,
    /// the four counts (u64 LE each), and each tabulator report hash in
    /// listed order.
    pub open spec fn spec_signing_fields(&self) -> Seq<Seq<u8>> {
        seq![
            self.election_hash@,
            schema::str_bytes(self.site_id@),
            schema::str_bytes(self.day@),
            self.head@,
            schema::le64(self.counts.submitted),
            schema::le64(self.counts.cast),
            schema::le64(self.counts.spoiled),
            schema::le64(self.counts.provisional_pending),
        ] + schema::concat_map(self.tabulator_report_hashes@, |h: Bytes| hash_field(h))
    }

    /// The canonical input the DBB signature covers.
    pub open spec fn spec_signing_input(&self) -> Seq<u8> {
        schema::canonical(crate::ds_tags::ATTESTATION@, self.spec_signing_fields())
    }

    /// The canonical byte input the DBB signature covers.
    pub fn signing_input(&self) -> (r: Vec<u8>)
        ensures
            r@ == self.spec_signing_input(),
    {
        let mut w = CanonicalWriter::new(&crate::ds_tags::ATTESTATION);
        let submitted = le64_bytes(self.counts.submitted);
        let cast = le64_bytes(self.counts.cast);
        let spoiled = le64_bytes(self.counts.spoiled);
        let pending = le64_bytes(self.counts.provisional_pending);
        w.field(self.election_hash.as_slice());
        w.field(self.site_id.as_str().as_bytes());
        w.field(self.day.as_str().as_bytes());
        w.field(self.head.as_slice());
        w.field(submitted.as_slice());
        w.field(cast.as_slice());
        w.field(spoiled.as_slice());
        w.field(pending.as_slice());
        let ghost base = w.fields();
        let ghost hs = self.tabulator_report_hashes@;
        let ghost f = |h: Bytes| hash_field(h);
        let n = self.tabulator_report_hashes.len();
        let mut i: usize = 0;
        while i < n
            invariant
                w.wf(),
                w.tag() == crate::ds_tags::ATTESTATION@,
                n == hs.len(),
                hs == self.tabulator_report_hashes@,
                f == (|h: Bytes| hash_field(h)),
                i <= n,
                w.fields() == base + schema::concat_map(hs.take(i as int), f),
            decreases n - i,
        {
            w.field(self.tabulator_report_hashes[i].as_slice());
            proof {
                schema::lemma_concat_map_step(hs, f, i as int);
                assert(f(hs[i as int]) == seq![hs[i as int]@]);
            }
            assert(w.fields() =~= base + schema::concat_map(hs.take(i + 1), f));
            i = i + 1;
        }
        proof {
            schema::lemma_concat_map_all(hs, f);
        }
        assert(w.fields() =~= self.spec_signing_fields());
        w.finish()
    }
}

} // verus!
