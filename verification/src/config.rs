//! The published election configuration record: the root of trust of the
//! public election record.

use crate::bytes::Bytes;
use crate::instance::InstanceDescriptor;
use crate::schema::{self, le32_bytes, CanonicalWriter};
use vstd::prelude::*;

verus! {

/// A trustee's public identity as published in the configuration.
#[derive(Debug, Clone, PartialEq, Eq)]
pub struct TrusteePublic {
    /// Human-readable trustee name.
    pub name: String,
    /// Ed25519 verifying key (32 bytes).
    pub verifying_key: Bytes,
}

/// A signature attributed to a named signer.
#[derive(Debug, Clone, PartialEq, Eq)]
pub struct NamedSignature {
    /// The signer's name (must resolve against the record's key material).
    pub signer: String,
    /// Ed25519 signature (64 bytes).
    pub signature: Bytes,
}

/// The trustee-endorsed election configuration, published before any ballot
/// is cast.
#[derive(Debug, Clone, PartialEq, Eq)]
pub struct ElectionConfigRecord {
    /// Schema version of this artifact.
    pub schema_version: String,
    /// The election hash: SHA3-256 over this configuration's canonical
    /// signing input. Every other artifact carries this value.
    pub election_hash: Bytes,
    /// The election manifest (opaque at schema level).
    pub manifest: String,
    /// DKG threshold `T`.
    pub threshold: u32,
    /// Trustee roster with verifying keys, in protocol order.
    pub trustees: Vec<TrusteePublic>,
    /// Non-trustee signing authorities (election authority, adjudicators)
    /// whose keys authenticate disposition records.
    pub authorities: Vec<TrusteePublic>,
    /// Kernel-encoded election public key (opaque bytes).
    pub election_public_key: Bytes,
    /// The product-line instance descriptor (feature selection).
    pub instance: InstanceDescriptor,
    /// One endorsement signature per trustee over [`Self::signing_input`].
    pub signatures: Vec<NamedSignature>,
}

/// The two fields of one roster member: name and verifying key.
pub open spec fn member_fields(t: TrusteePublic) -> Seq<Seq<u8>> {
    seq![schema::str_bytes(t.name@), t.verifying_key@]
}

/// The single field of one feature identifier.
pub open spec fn text_field(s: String) -> Seq<Seq<u8>> {
    seq![schema::str_bytes(s@)]
}

fn push_members(w: &mut CanonicalWriter, ms: &Vec<TrusteePublic>)
    requires
        old(w).wf(),
    ensures
        final(w).wf(),
        final(w).tag() == old(w).tag(),
        final(w).fields() == old(w).fields() + schema::concat_map(
            ms@,
            |t: TrusteePublic| member_fields(t),
        ),
{
    let ghost base = w.fields();
    let ghost f = |t: TrusteePublic| member_fields(t);
    let n = ms.len();
    let mut i: usize = 0;
    while i < n
        invariant
            w.wf(),
            w.tag() == old(w).tag(),
            n == ms@.len(),
            f == (|t: TrusteePublic| member_fields(t)),
            i <= n,
            w.fields() == base + schema::concat_map(ms@.take(i as int), f),
        decreases n - i,
    {
        w.field(ms[i].name.as_str().as_bytes());
        w.field(ms[i].verifying_key.as_slice());
        proof {
            schema::lemma_concat_map_step(ms@, f, i as int);
            assert(f(ms@[i as int]) == member_fields(ms@[i as int]));
        }
        assert(w.fields() =~= base + schema::concat_map(ms@.take(i + 1), f));
        i = i + 1;
    }
    proof {
        schema::lemma_concat_map_all(ms@, f);
    }
}

fn push_texts(w: &mut CanonicalWriter, ss: &Vec<String>)
    requires
        old(w).wf(),
    ensures
        final(w).wf(),
        final(w).tag() == old(w).tag(),
        final(w).fields() == old(w).fields() + schema::concat_map(ss@, |s: String| text_field(s)),
{
    let ghost base = w.fields();
    let ghost f = |s: String| text_field(s);
    let n = ss.len();
    let mut i: usize = 0;
    while i < n
        invariant
            w.wf(),
            w.tag() == old(w).tag(),
            n == ss@.len(),
            f == (|s: String| text_field(s)),
            i <= n,
            w.fields() == base + schema::concat_map(ss@.take(i as int), f),
        decreases n - i,
    {
        w.field(ss[i].as_str().as_bytes());
        proof {
            schema::lemma_concat_map_step(ss@, f, i as int);
            assert(f(ss@[i as int]) == text_field(ss@[i as int]));
        }
        assert(w.fields() =~= base + schema::concat_map(ss@.take(i + 1), f));
        i = i + 1;
    }
    proof {
        schema::lemma_concat_map_all(ss@, f);
    }
}

impl ElectionConfigRecord {
    /// The fields that endorsements cover and whose hash is the election
    /// hash: manifest, threshold (u32 LE), each trustee's name and key (in
    /// roster order), the election public key, then the instance
    /// descriptor's product, mode, crypto suite, each feature in listed
    /// order, and anonymity floor (u32 LE).
    pub open spec fn spec_signing_fields(&self) -> Seq<Seq<u8>> {
        seq![schema::str_bytes(self.manifest@), schema::le32(self.threshold)]
            + schema::concat_map(self.trustees@, |t: TrusteePublic| member_fields(t))
            + seq![
            self.election_public_key@,
            schema::str_bytes(self.instance.product@),
            schema::str_bytes(self.instance.mode@),
            schema::str_bytes(self.instance.crypto_suite@),
        ] + schema::concat_map(self.instance.features@, |s: String| text_field(s)) + seq![
            schema::le32(self.instance.anonymity_floor),
        ]
    }

    /// The canonical input trustee endorsements cover.
    pub open spec fn spec_signing_input(&self) -> Seq<u8> {
        schema::canonical(crate::ds_tags::CONFIG@, self.spec_signing_fields())
    }

    /// The canonical byte input that trustee endorsement signatures cover,
    /// and whose SHA3-256 hash is the `election_hash`.
    pub fn signing_input(&self) -> (r: Vec<u8>)
        ensures
            r@ == self.spec_signing_input(),
    {
        let threshold = le32_bytes(self.threshold);
        let floor = le32_bytes(self.instance.anonymity_floor);
        let mut w = CanonicalWriter::new(&crate::ds_tags::CONFIG);
        w.field(self.manifest.as_str().as_bytes());
        w.field(threshold.as_slice());
        push_members(&mut w, &self.trustees);
        w.field(self.election_public_key.as_slice());
        w.field(self.instance.product.as_str().as_bytes());
        w.field(self.instance.mode.as_str().as_bytes());
        w.field(self.instance.crypto_suite.as_str().as_bytes());
        push_texts(&mut w, &self.instance.features);
        w.field(floor.as_slice());
        assert(w.fields() =~= self.spec_signing_fields());
        w.finish()
    }
}

/// The election hash covers the unsigned configuration content: the
/// signing input leaves out the election hash and the endorsements (and the
/// non-trustee authorities), so two configurations that differ only there
/// have the same signing input, and endorsements can be added after hashing
/// without changing the hash.
pub proof fn lemma_signing_input_ignores_hash_and_endorsements(
    c: ElectionConfigRecord,
    d: ElectionConfigRecord,
)
    requires
        d.manifest@ == c.manifest@,
        d.threshold == c.threshold,
        d.trustees@ == c.trustees@,
        d.election_public_key@ == c.election_public_key@,
        d.instance.product@ == c.instance.product@,
        d.instance.mode@ == c.instance.mode@,
        d.instance.crypto_suite@ == c.instance.crypto_suite@,
        d.instance.features@ == c.instance.features@,
        d.instance.anonymity_floor == c.instance.anonymity_floor,
    ensures
        d.spec_signing_input() == c.spec_signing_input(),
{
}

} // verus!
