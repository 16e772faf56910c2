//! The tally transcript: the complete verifiable output of the trustee
//! ceremony. Cryptographic objects appear as opaque kernel-encoded payloads.

use crate::bytes::Bytes;
use crate::config::NamedSignature;
use crate::schema::{self, CanonicalWriter};
use crate::tabulator::{self, ContestTotals};
use vstd::prelude::*;

verus! {

/// One trustee's mix round.
#[derive(Debug, Clone, PartialEq, Eq)]
pub struct MixRound {
    /// The mixing trustee's name (from the configuration roster).
    pub trustee: String,
    /// Kernel-encoded shuffled ciphertext list (opaque).
    pub ciphertexts: Bytes,
    /// Kernel-encoded proof of shuffle (opaque).
    pub proof: Bytes,
}

/// One trustee's partial decryptions for the final mixed list.
#[derive(Debug, Clone, PartialEq, Eq)]
pub struct PartialDecryptionSet {
    /// The decrypting trustee's name.
    pub trustee: String,
    /// Kernel-encoded decryption factors (opaque).
    pub factors: Bytes,
    /// Kernel-encoded Chaum-Pedersen proofs (opaque).
    pub proofs: Bytes,
}

/// The published tally transcript.
#[derive(Debug, Clone, PartialEq, Eq)]
pub struct TallyTranscript {
    /// Schema version of this artifact.
    pub schema_version: String,
    /// The election hash.
    pub election_hash: Bytes,
    /// The trackers (submission entry hashes) of the cryptograms that
    /// entered the mix: the committed mix input.
    pub input_trackers: Vec<Bytes>,
    /// Kernel-encoded initial (stripped) ciphertext list (opaque).
    pub input_ciphertexts: Bytes,
    /// Mix rounds in execution order.
    pub mix_rounds: Vec<MixRound>,
    /// Partial decryption sets from the participating quorum.
    pub partial_decryptions: Vec<PartialDecryptionSet>,
    /// Kernel-encoded decrypted plaintext ballots (opaque).
    pub plaintexts: Bytes,
    /// The computed tallies.
    pub tallies: Vec<ContestTotals>,
    /// Trustee signatures over [`Self::signing_input`].
    pub trustee_signatures: Vec<NamedSignature>,
}

/// The single field of one input tracker.
pub open spec fn tracker_field(t: Bytes) -> Seq<Seq<u8>> {
    seq![t@]
}

/// The fields of one mix round: trustee, ciphertexts, proof.
pub open spec fn round_fields(m: MixRound) -> Seq<Seq<u8>> {
    seq![schema::str_bytes(m.trustee@), m.ciphertexts@, m.proof@]
}

/// The fields of one partial-decryption set: trustee, factors, proofs.
pub open spec fn partial_fields(p: PartialDecryptionSet) -> Seq<Seq<u8>> {
    seq![schema::str_bytes(p.trustee@), p.factors@, p.proofs@]
}

impl TallyTranscript {
    /// The fields the trustee signatures cover: election hash, each input
    /// tracker, the input ciphertexts, each round's trustee/ciphertexts/proof,
    /// each partial-decryption set's trustee/factors/proofs, the plaintexts,
    /// and each contest tally.
    pub open spec fn spec_signing_fields(&self) -> Seq<Seq<u8>> {
        seq![self.election_hash@] + schema::concat_map(
            self.input_trackers@,
            |t: Bytes| tracker_field(t),
        ) + seq![self.input_ciphertexts@] + schema::concat_map(
            self.mix_rounds@,
            |m: MixRound| round_fields(m),
        ) + schema::concat_map(
            self.partial_decryptions@,
            |p: PartialDecryptionSet| partial_fields(p),
        ) + seq![self.plaintexts@] + tabulator::totals_fields(self.tallies@)
    }

    /// The canonical input the trustee signatures cover.
    pub open spec fn spec_signing_input(&self) -> Seq<u8> {
        schema::canonical(crate::ds_tags::TRANSCRIPT@, self.spec_signing_fields())
    }

    /// The canonical byte input the trustee signatures cover.
    pub fn signing_input(&self) -> (r: Vec<u8>)
        ensures
            r@ == self.spec_signing_input(),
    {
        let mut w = CanonicalWriter::new(&crate::ds_tags::TRANSCRIPT);
        w.field(self.election_hash.as_slice());
        let ghost b0 = w.fields();
        let ghost ft = |t: Bytes| tracker_field(t);
        let n = self.input_trackers.len();
        let mut i: usize = 0;
        while i < n
            invariant
                w.wf(),
                w.tag() == crate::ds_tags::TRANSCRIPT@,
                n == self.input_trackers@.len(),
                ft == (|t: Bytes| tracker_field(t)),
                i <= n,
                w.fields() == b0 + schema::concat_map(self.input_trackers@.take(i as int), ft),
            decreases n - i,
        {
            w.field(self.input_trackers[i].as_slice());
            proof {
                schema::lemma_concat_map_step(self.input_trackers@, ft, i as int);
                assert(ft(self.input_trackers@[i as int]) == tracker_field(self.input_trackers@[i as int]));
            }
            assert(w.fields() =~= b0 + schema::concat_map(self.input_trackers@.take(i + 1), ft));
            i = i + 1;
        }
        proof {
            schema::lemma_concat_map_all(self.input_trackers@, ft);
        }
        w.field(self.input_ciphertexts.as_slice());
        let ghost b1 = w.fields();
        let ghost fm = |m: MixRound| round_fields(m);
        let n = self.mix_rounds.len();
        let mut i: usize = 0;
        while i < n
            invariant
                w.wf(),
                w.tag() == crate::ds_tags::TRANSCRIPT@,
                n == self.mix_rounds@.len(),
                fm == (|m: MixRound| round_fields(m)),
                i <= n,
                w.fields() == b1 + schema::concat_map(self.mix_rounds@.take(i as int), fm),
            decreases n - i,
        {
            w.field(self.mix_rounds[i].trustee.as_str().as_bytes());
            w.field(self.mix_rounds[i].ciphertexts.as_slice());
            w.field(self.mix_rounds[i].proof.as_slice());
            proof {
                schema::lemma_concat_map_step(self.mix_rounds@, fm, i as int);
                assert(fm(self.mix_rounds@[i as int]) == round_fields(self.mix_rounds@[i as int]));
            }
            assert(w.fields() =~= b1 + schema::concat_map(self.mix_rounds@.take(i + 1), fm));
            i = i + 1;
        }
        proof {
            schema::lemma_concat_map_all(self.mix_rounds@, fm);
        }
        let ghost b2 = w.fields();
        let ghost fp = |p: PartialDecryptionSet| partial_fields(p);
        let n = self.partial_decryptions.len();
        let mut i: usize = 0;
        while i < n
            invariant
                w.wf(),
                w.tag() == crate::ds_tags::TRANSCRIPT@,
                n == self.partial_decryptions@.len(),
                fp == (|p: PartialDecryptionSet| partial_fields(p)),
                i <= n,
                w.fields() == b2 + schema::concat_map(self.partial_decryptions@.take(i as int), fp),
            decreases n - i,
        {
            w.field(self.partial_decryptions[i].trustee.as_str().as_bytes());
            w.field(self.partial_decryptions[i].factors.as_slice());
            w.field(self.partial_decryptions[i].proofs.as_slice());
            proof {
                schema::lemma_concat_map_step(self.partial_decryptions@, fp, i as int);
                assert(fp(self.partial_decryptions@[i as int]) == partial_fields(
                    self.partial_decryptions@[i as int],
                ));
            }
            assert(w.fields() =~= b2 + schema::concat_map(
                self.partial_decryptions@.take(i + 1),
                fp,
            ));
            i = i + 1;
        }
        proof {
            schema::lemma_concat_map_all(self.partial_decryptions@, fp);
        }
        w.field(self.plaintexts.as_slice());
        tabulator::push_totals(&mut w, &self.tallies);
        assert(w.fields() =~= self.spec_signing_fields());
        w.finish()
    }
}

} // verus!
