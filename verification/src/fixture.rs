//! A hand-built micro-election record with real cryptographic material
//! (Ed25519 keys and signatures, real chain hashes), for tests and for
//! anyone needing a valid record to develop against.
//!
//! The mini election: one site (`site-1`), one day, one contest (`c1`,
//! options `A`/`B`), four voters. Voters 1 to 3 submit and cast (A, A, B);
//! voter 4 submits, takes the Benaloh challenge (spoil and disposition),
//! and leaves without revoting. One tabulator report (3 regular cards,
//! totals A=2/B=1) and a transcript whose input is the three cast
//! cryptograms with matching tallies. Cryptographic payloads (ciphertexts,
//! proofs) are placeholder bytes; every hash, signature and arithmetic
//! relationship is real.

use crate::attestation::{ChainHeadAttestation, SiteCounts};
use crate::board::{BoardSegment, BulletinEntry, BulletinKind, EntryFlags};
use crate::bytes::Bytes;
use crate::config::{ElectionConfigRecord, NamedSignature, TrusteePublic};
use crate::crypto::{
    self, ed25519_key_decodes, ed25519_public_key, ed25519_verifies, generate_signing_key, sha3_256,
};
use crate::disposition::{DispositionDecision, DispositionRecord};
use crate::instance::InstanceDescriptor;
use crate::checks::{accounting, attestations, chain, dispositions, reconciliation, signatures, structure};
use crate::keys;
use crate::record::ElectionRecord;
use crate::report::{self, Overall, StatusView};
use crate::schema::{self, SCHEMA_VERSION};
use crate::seqs;
use crate::tabulator::{ContestTotals, OptionTotal, TabulatorReport};
use crate::text::{self, push_dec, push_str};
use crate::transcript::{MixRound, PartialDecryptionSet, TallyTranscript};
use vstd::prelude::*;

verus! {

/// Whether `signature` is a 64-byte Ed25519 signature over `input` under the
/// decodable verifying key `key`.
pub open spec fn signed_by(key: Seq<u8>, input: Seq<u8>, signature: Seq<u8>) -> bool {
    &&& ed25519_key_decodes(key)
    &&& signature.len() == 64
    &&& ed25519_verifies(key, input, signature)
}

/// Whether the entries form a hash chain from `start`: each entry's hash is
/// the SHA3-256 of its hash input, and each links to the hash of the entry
/// before it (the first to `start`).
pub open spec fn chained_from(es: Seq<BulletinEntry>, start: Seq<u8>) -> bool {
    &&& forall|i: int|
        0 <= i < es.len() ==> (#[trigger] es[i]).entry_hash@ == sha3_256(es[i].spec_hash_input())
    &&& es.len() > 0 ==> es[0].previous_hash@ == start
    &&& forall|i: int|
        0 < i < es.len() ==> (#[trigger] es[i].previous_hash)@ == es[i - 1].entry_hash@
}

/// `prefix` followed by the decimal digits of `n`.
pub open spec fn numbered(prefix: Seq<char>, n: nat) -> Seq<char> {
    prefix + text::dec_text(n)
}

/// Whether `e` is an unflagged entry of the given kind, payload text and
/// subject.
pub open spec fn entry_is(e: BulletinEntry, kind: BulletinKind, payload: Seq<char>, subject: Seq<u8>) -> bool {
    &&& e.kind == kind
    &&& !e.flags.provisional
    &&& !e.flags.test
    &&& e.payload@ == schema::str_bytes(payload)
    &&& e.subject@ == subject
}

/// The eleven entries of the mini election's board: four submissions, an
/// authorization and a cast for each of voters 1 to 3, and the spoil of
/// voter 4's submission.
pub open spec fn mini_entries(es: Seq<BulletinEntry>) -> bool {
    &&& es.len() == 11
    &&& forall|v: int|
        0 <= v < 4 ==> entry_is(
            #[trigger] es[v],
            BulletinKind::Submission,
            numbered("placeholder-cryptogram-voter-"@, (v + 1) as nat),
            Seq::empty(),
        )
    &&& forall|v: int|
        0 <= v < 3 ==> entry_is(
            #[trigger] es[4 + 2 * v],
            BulletinKind::VoterAuthorization,
            numbered("placeholder-authorization-"@, (v + 1) as nat),
            Seq::empty(),
        ) && entry_is(es[5 + 2 * v], BulletinKind::Cast, "cast"@, es[v].entry_hash@)
    &&& entry_is(es[10], BulletinKind::Spoil, "spoiled-by-check"@, es[3].entry_hash@)
}

/// The contest totals of the mini election: contest `c1`, A=2, B=1.
pub open spec fn mini_totals(cs: Seq<ContestTotals>) -> bool {
    &&& cs.len() == 1
    &&& cs[0].contest_id@ == "c1"@
    &&& cs[0].options@.len() == 2
    &&& cs[0].options@[0].option_id@ == "A"@
    &&& cs[0].options@[0].count == 2
    &&& cs[0].options@[1].option_id@ == "B"@
    &&& cs[0].options@[1].count == 1
}

/// The mini election's configuration: its public content, an election hash
/// that is the SHA3-256 of its signing input, and one valid endorsement by
/// each of its three trustees.
pub open spec fn mini_config(c: ElectionConfigRecord) -> bool {
    &&& c.schema_version@ == SCHEMA_VERSION@
    &&& c.manifest@ == "mini election: contest c1, options A and B"@
    &&& c.threshold == 2
    &&& c.trustees@.len() == 3
    &&& c.authorities@.len() == 1
    &&& c.authorities@[0].name@ == "election-authority"@
    &&& ed25519_key_decodes(c.authorities@[0].verifying_key@)
    &&& c.election_public_key@ == schema::str_bytes("placeholder-election-public-key"@)
    &&& c.instance.schema_version@ == SCHEMA_VERSION@
    &&& c.instance.product@ == "bmvs"@
    &&& c.instance.mode@ == "bmvs"@
    &&& c.instance.crypto_suite@ == "ristretto255-ed25519-sha3"@
    &&& c.instance.features@.len() == 2
    &&& c.instance.features@[0]@ == "provisional-ballots"@
    &&& c.instance.features@[1]@ == "early-voting"@
    &&& c.instance.anonymity_floor == 1
    &&& c.election_hash@ == sha3_256(c.spec_signing_input())
    &&& c.signatures@.len() == 3
    &&& forall|i: int|
        0 <= i < 3 ==> {
            &&& (#[trigger] c.trustees@[i]).name@ == numbered("trustee-"@, (i + 1) as nat)
            &&& c.signatures@[i].signer@ == numbered("trustee-"@, (i + 1) as nat)
            &&& signed_by(
                c.trustees@[i].verifying_key@,
                c.spec_signing_input(),
                c.signatures@[i].signature@,
            )
        }
}

/// The mini election's board segment: site `site-1` on 2026-07-12, chained
/// from the election hash, headed by its last entry and signed by its
/// board key.
pub open spec fn mini_segment(s: BoardSegment, eh: Seq<u8>) -> bool {
    &&& s.schema_version@ == SCHEMA_VERSION@
    &&& s.election_hash@ == eh
    &&& s.site_id@ == "site-1"@
    &&& s.day@ == "2026-07-12"@
    &&& s.previous_segment_head@ == eh
    &&& mini_entries(s.entries@)
    &&& chained_from(s.entries@, eh)
    &&& s.segment_head@ == s.entries@[10].entry_hash@
    &&& signed_by(s.dbb_verifying_key@, s.spec_signing_input(), s.signature@)
}

/// The mini election's tabulator report: `tab-1` at `site-1` on
/// 2026-07-12, 3 regular cards, the mini totals, signed by its key.
pub open spec fn mini_report(t: TabulatorReport, eh: Seq<u8>) -> bool {
    &&& t.schema_version@ == SCHEMA_VERSION@
    &&& t.election_hash@ == eh
    &&& t.site_id@ == "site-1"@
    &&& t.tab_id@ == "tab-1"@
    &&& t.day@ == "2026-07-12"@
    &&& mini_totals(t.totals@)
    &&& t.cards_regular == 3
    &&& t.cards_provisional == 0
    &&& t.cards_rejected == 0
    &&& signed_by(t.tab_verifying_key@, t.spec_signing_input(), t.signature@)
}

/// The mini election's attestation of the segment's head and counts and of
/// the report's hash, signed by the segment's board key.
pub open spec fn mini_attestation(
    a: ChainHeadAttestation,
    s: BoardSegment,
    t: TabulatorReport,
    eh: Seq<u8>,
) -> bool {
    &&& a.schema_version@ == SCHEMA_VERSION@
    &&& a.election_hash@ == eh
    &&& a.site_id@ == "site-1"@
    &&& a.day@ == "2026-07-12"@
    &&& a.head@ == s.segment_head@
    &&& a.counts == SiteCounts { submitted: 4, cast: 3, spoiled: 1, provisional_pending: 0 }
    &&& a.tabulator_report_hashes@.len() == 1
    &&& a.tabulator_report_hashes@[0]@ == sha3_256(t.spec_signing_input())
    &&& a.dbb_verifying_key@ == s.dbb_verifying_key@
    &&& signed_by(a.dbb_verifying_key@, a.spec_signing_input(), a.signature@)
}

/// The disposition of voter 4's challenged ballot, signed by the election
/// authority.
pub open spec fn mini_disposition(d: DispositionRecord, c: ElectionConfigRecord, s: BoardSegment) -> bool {
    &&& d.schema_version@ == SCHEMA_VERSION@
    &&& d.election_hash@ == c.election_hash@
    &&& d.subject@ == s.entries@[3].entry_hash@
    &&& d.decision == DispositionDecision::SpoiledByCheck
    &&& d.reason_category@ == "benaloh-challenge"@
    &&& d.signatures@.len() == 1
    &&& d.signatures@[0].signer@ == "election-authority"@
    &&& signed_by(
        c.authorities@[0].verifying_key@,
        d.spec_signing_input(),
        d.signatures@[0].signature@,
    )
}

/// The tally transcript: the three cast cryptograms as input, two mix
/// rounds and two partial decryptions by trustees 1 and 2, the mini totals,
/// signed by trustees 1 and 2.
pub open spec fn mini_transcript(t: TallyTranscript, c: ElectionConfigRecord, s: BoardSegment) -> bool {
    &&& t.schema_version@ == SCHEMA_VERSION@
    &&& t.election_hash@ == c.election_hash@
    &&& t.input_trackers@.len() == 3
    &&& forall|v: int| 0 <= v < 3 ==> (#[trigger] t.input_trackers@[v])@ == s.entries@[v].entry_hash@
    &&& t.input_ciphertexts@ == schema::str_bytes("placeholder-stripped-ciphertexts"@)
    &&& t.mix_rounds@.len() == 2
    &&& t.partial_decryptions@.len() == 2
    &&& forall|i: int|
        0 <= i < 2 ==> {
            &&& (#[trigger] t.mix_rounds@[i]).trustee@ == numbered("trustee-"@, (i + 1) as nat)
            &&& t.mix_rounds@[i].ciphertexts@ == schema::str_bytes(
                numbered("placeholder-mix-"@, (i + 1) as nat),
            )
            &&& t.mix_rounds@[i].proof@ == schema::str_bytes(
                numbered("placeholder-tw-proof-"@, (i + 1) as nat),
            )
            &&& t.partial_decryptions@[i].trustee@ == numbered("trustee-"@, (i + 1) as nat)
            &&& t.partial_decryptions@[i].factors@ == schema::str_bytes(
                numbered("placeholder-factors-"@, (i + 1) as nat),
            )
            &&& t.partial_decryptions@[i].proofs@ == schema::str_bytes(
                numbered("placeholder-cp-proofs-"@, (i + 1) as nat),
            )
            &&& t.trustee_signatures@[i].signer@ == numbered("trustee-"@, (i + 1) as nat)
            &&& signed_by(
                c.trustees@[i].verifying_key@,
                t.spec_signing_input(),
                t.trustee_signatures@[i].signature@,
            )
        }
    &&& t.plaintexts@ == schema::str_bytes("placeholder-plaintexts"@)
    &&& mini_totals(t.tallies@)
    &&& t.trustee_signatures@.len() == 2
}

/// The mini election record, whatever keys it was built with.
pub open spec fn is_mini_record(r: ElectionRecord) -> bool {
    let c = r.config;
    &&& mini_config(c)
    &&& r.segments@.len() == 1
    &&& mini_segment(r.segments@[0], c.election_hash@)
    &&& r.tabulator_reports@.len() == 1
    &&& mini_report(r.tabulator_reports@[0], c.election_hash@)
    &&& r.attestations@.len() == 1
    &&& mini_attestation(
        r.attestations@[0],
        r.segments@[0],
        r.tabulator_reports@[0],
        c.election_hash@,
    )
    &&& r.dispositions@.len() == 1
    &&& mini_disposition(r.dispositions@[0], c, r.segments@[0])
    &&& r.transcript matches Some(t) && mini_transcript(t, c, r.segments@[0])
}

fn text_of(t: &str) -> (s: String)
    ensures
        s@ == t@,
{
    let mut s = String::new();
    push_str(&mut s, t);
    s
}

fn numbered_text(prefix: &str, n: u64) -> (s: String)
    ensures
        s@ == numbered(prefix@, n as nat),
{
    let mut s = String::new();
    push_str(&mut s, prefix);
    push_dec(&mut s, n);
    s
}

fn bytes_from(b: &[u8]) -> (r: Bytes)
    ensures
        r@ == b@,
{
    let mut v: Vec<u8> = Vec::new();
    v.extend_from_slice(b);
    Bytes::new(v)
}

fn text_bytes(t: &str) -> (r: Bytes)
    ensures
        r@ == schema::str_bytes(t@),
{
    bytes_from(t.as_bytes())
}

fn no_bytes() -> (r: Bytes)
    ensures
        r@ == Seq::<u8>::empty(),
{
    Bytes::new(Vec::new())
}

fn public_key(secret: &[u8; 32]) -> (k: Bytes)
    ensures
        k@ == ed25519_public_key(secret@),
        ed25519_key_decodes(k@),
{
    let k = crypto::verifying_key_of(secret);
    bytes_from(&k)
}

fn signature_by(secret: &[u8; 32], message: &[u8]) -> (s: Bytes)
    ensures
        signed_by(ed25519_public_key(secret@), message@, s@),
{
    // The key's own decoding is what makes the signature checkable.
    let _k = crypto::verifying_key_of(secret);
    let s = crypto::sign(secret, message);
    bytes_from(&s)
}

/// Whether `e` is an unflagged entry with the given kind, payload and
/// subject, linked to `prev` and hashed over its own hash input.
pub open spec fn new_entry(e: BulletinEntry, kind: BulletinKind, payload: Seq<u8>, subject: Seq<u8>, prev: Seq<u8>) -> bool {
    &&& e.kind == kind
    &&& !e.flags.provisional
    &&& !e.flags.test
    &&& e.payload@ == payload
    &&& e.subject@ == subject
    &&& e.previous_hash@ == prev
    &&& e.entry_hash@ == sha3_256(e.spec_hash_input())
}

/// Appends the entry of the given kind, payload and subject that extends
/// the chain at `prev`, moves `prev` to its hash, and returns that hash
/// (the entry's tracker).
fn push_entry(
    entries: &mut Vec<BulletinEntry>,
    prev: &mut Bytes,
    kind: BulletinKind,
    payload: Bytes,
    subject: Bytes,
) -> (tracker: Bytes)
    ensures
        final(entries)@ == old(entries)@.push(final(entries)@.last()),
        new_entry(final(entries)@.last(), kind, payload@, subject@, old(prev)@),
        final(prev)@ == final(entries)@.last().entry_hash@,
        tracker@ == final(prev)@,
{
    let mut e = BulletinEntry {
        kind,
        flags: EntryFlags { provisional: false, test: false },
        payload,
        subject,
        previous_hash: prev.duplicate(),
        entry_hash: no_bytes(),
    };
    let input = e.hash_input();
    let h = crypto::hash256(input.as_slice());
    e.entry_hash = bytes_from(&h);
    *prev = e.entry_hash.duplicate();
    let tracker = e.entry_hash.duplicate();
    entries.push(e);
    assert(entries@.last() == e);
    tracker
}

fn member(name: String, secret: &[u8; 32]) -> (m: TrusteePublic)
    ensures
        m.name@ == name@,
        m.verifying_key@ == ed25519_public_key(secret@),
        ed25519_key_decodes(m.verifying_key@),
{
    TrusteePublic { name, verifying_key: public_key(secret) }
}

fn endorsement(signer: String, secret: &[u8; 32], input: &[u8]) -> (n: NamedSignature)
    ensures
        n.signer@ == signer@,
        signed_by(ed25519_public_key(secret@), input@, n.signature@),
{
    NamedSignature { signer, signature: signature_by(secret, input) }
}

/// The configuration, hashed and endorsed by the three trustees.
fn mini_config_of(t1: &[u8; 32], t2: &[u8; 32], t3: &[u8; 32], ea: &[u8; 32]) -> (c:
    ElectionConfigRecord)
    ensures
        mini_config(c),
        c.trustees@[0].verifying_key@ == ed25519_public_key(t1@),
        c.trustees@[1].verifying_key@ == ed25519_public_key(t2@),
        c.authorities@[0].verifying_key@ == ed25519_public_key(ea@),
{
    let mut c = ElectionConfigRecord {
        schema_version: text_of(SCHEMA_VERSION),
        election_hash: no_bytes(),
        manifest: text_of("mini election: contest c1, options A and B"),
        threshold: 2,
        trustees: vec![
            member(numbered_text("trustee-", 1), t1),
            member(numbered_text("trustee-", 2), t2),
            member(numbered_text("trustee-", 3), t3),
        ],
        authorities: vec![member(text_of("election-authority"), ea)],
        election_public_key: text_bytes("placeholder-election-public-key"),
        instance: InstanceDescriptor {
            schema_version: text_of(SCHEMA_VERSION),
            product: text_of("bmvs"),
            mode: text_of("bmvs"),
            crypto_suite: text_of("ristretto255-ed25519-sha3"),
            features: vec![text_of("provisional-ballots"), text_of("early-voting")],
            anonymity_floor: 1,
        },
        signatures: Vec::new(),
    };
    // The election hash covers the unsigned content (the signing input
    // leaves out the hash and the signatures), so endorsements can be added
    // after hashing without changing it.
    let input = c.signing_input();
    let h = crypto::hash256(input.as_slice());
    c.election_hash = bytes_from(&h);
    c.signatures = vec![
        endorsement(numbered_text("trustee-", 1), t1, input.as_slice()),
        endorsement(numbered_text("trustee-", 2), t2, input.as_slice()),
        endorsement(numbered_text("trustee-", 3), t3, input.as_slice()),
    ];
    assert(input@ == c.spec_signing_input());
    assert forall|i: int| 0 <= i < 3 implies {
        &&& (#[trigger] c.trustees@[i]).name@ == numbered("trustee-"@, (i + 1) as nat)
        &&& c.signatures@[i].signer@ == numbered("trustee-"@, (i + 1) as nat)
        &&& signed_by(
            c.trustees@[i].verifying_key@,
            c.spec_signing_input(),
            c.signatures@[i].signature@,
        )
    } by {
        if i == 0 {
        } else if i == 1 {
        } else {
        }
    }
    c
}

fn numbered_bytes(prefix: &str, n: u64) -> (b: Bytes)
    ensures
        b@ == schema::str_bytes(numbered(prefix@, n as nat)),
{
    let t = numbered_text(prefix, n);
    bytes_from(t.as_str().as_bytes())
}


/// Whether `e` extends the chain at `prev` and carries the hash of its own
/// hash input.
pub open spec fn links(e: BulletinEntry, prev: Seq<u8>) -> bool {
    &&& e.previous_hash@ == prev
    &&& e.entry_hash@ == sha3_256(e.spec_hash_input())
}

/// Eleven entries that each extend the chain at the one before (the first
/// at `eh`) are chained from `eh`.
proof fn lemma_chain_of_eleven(v: Seq<BulletinEntry>, eh: Seq<u8>)
    requires
        v.len() == 11,
        links(v[0], eh),
        forall|i: int| 1 <= i < 11 ==> links(#[trigger] v[i], v[i - 1].entry_hash@),
    ensures
        chained_from(v, eh),
{
    assert forall|i: int| 0 <= i < v.len() implies (#[trigger] v[i]).entry_hash@ == sha3_256(
        v[i].spec_hash_input(),
    ) by {
        if i > 0 {
            assert(links(v[i], v[i - 1].entry_hash@));
        }
    }
    assert forall|i: int| 0 < i < v.len() implies (#[trigger] v[i].previous_hash)@ == v[i
        - 1].entry_hash@ by {
        assert(links(v[i], v[i - 1].entry_hash@));
    }
}

/// The entries built for the mini election's board are its eleven entries.
#[verifier::spinoff_prover]
proof fn lemma_mini_board(v: Seq<BulletinEntry>)
    requires
        v.len() == 11,
        entry_is(v[0], BulletinKind::Submission, numbered("placeholder-cryptogram-voter-"@, 1), Seq::empty()),
        entry_is(v[1], BulletinKind::Submission, numbered("placeholder-cryptogram-voter-"@, 2), Seq::empty()),
        entry_is(v[2], BulletinKind::Submission, numbered("placeholder-cryptogram-voter-"@, 3), Seq::empty()),
        entry_is(v[3], BulletinKind::Submission, numbered("placeholder-cryptogram-voter-"@, 4), Seq::empty()),
        entry_is(v[4], BulletinKind::VoterAuthorization, numbered("placeholder-authorization-"@, 1), Seq::empty()),
        entry_is(v[5], BulletinKind::Cast, "cast"@, v[0].entry_hash@),
        entry_is(v[6], BulletinKind::VoterAuthorization, numbered("placeholder-authorization-"@, 2), Seq::empty()),
        entry_is(v[7], BulletinKind::Cast, "cast"@, v[1].entry_hash@),
        entry_is(v[8], BulletinKind::VoterAuthorization, numbered("placeholder-authorization-"@, 3), Seq::empty()),
        entry_is(v[9], BulletinKind::Cast, "cast"@, v[2].entry_hash@),
        entry_is(v[10], BulletinKind::Spoil, "spoiled-by-check"@, v[3].entry_hash@),
    ensures
        mini_entries(v),
{
    assert forall|i: int| 0 <= i < 4 implies entry_is(
        #[trigger] v[i],
        BulletinKind::Submission,
        numbered("placeholder-cryptogram-voter-"@, (i + 1) as nat),
        Seq::empty(),
    ) by {
        if i == 0 {
        } else if i == 1 {
        } else if i == 2 {
        } else {
        }
    }
    assert forall|i: int| 0 <= i < 3 implies entry_is(
        #[trigger] v[4 + 2 * i],
        BulletinKind::VoterAuthorization,
        numbered("placeholder-authorization-"@, (i + 1) as nat),
        Seq::empty(),
    ) && entry_is(v[5 + 2 * i], BulletinKind::Cast, "cast"@, v[i].entry_hash@) by {
        if i == 0 {
        } else if i == 1 {
        } else {
        }
    }
}

/// The board's eleven entries, chained from the election hash; returns
/// them with the chain's head.
#[verifier::rlimit(50)]
fn mini_entries_of(eh: &Bytes) -> (r: (Vec<BulletinEntry>, Bytes))
    ensures
        mini_entries(r.0@),
        chained_from(r.0@, eh@),
        r.1@ == r.0@[10].entry_hash@,
{
    let mut es: Vec<BulletinEntry> = Vec::new();
    let mut prev = eh.duplicate();
    let k1 = push_entry(
        &mut es,
        &mut prev,
        BulletinKind::Submission,
        numbered_bytes("placeholder-cryptogram-voter-", 1),
        no_bytes(),
    );
    let ghost x0 = es@.last();
    let k2 = push_entry(
        &mut es,
        &mut prev,
        BulletinKind::Submission,
        numbered_bytes("placeholder-cryptogram-voter-", 2),
        no_bytes(),
    );
    let ghost x1 = es@.last();
    let k3 = push_entry(
        &mut es,
        &mut prev,
        BulletinKind::Submission,
        numbered_bytes("placeholder-cryptogram-voter-", 3),
        no_bytes(),
    );
    let ghost x2 = es@.last();
    let k4 = push_entry(
        &mut es,
        &mut prev,
        BulletinKind::Submission,
        numbered_bytes("placeholder-cryptogram-voter-", 4),
        no_bytes(),
    );
    let ghost x3 = es@.last();
    // Voters 1 to 3 cast: an authorization and a cast marker each.
    push_entry(
        &mut es,
        &mut prev,
        BulletinKind::VoterAuthorization,
        numbered_bytes("placeholder-authorization-", 1),
        no_bytes(),
    );
    let ghost x4 = es@.last();
    push_entry(&mut es, &mut prev, BulletinKind::Cast, text_bytes("cast"), k1);
    let ghost x5 = es@.last();
    push_entry(
        &mut es,
        &mut prev,
        BulletinKind::VoterAuthorization,
        numbered_bytes("placeholder-authorization-", 2),
        no_bytes(),
    );
    let ghost x6 = es@.last();
    push_entry(&mut es, &mut prev, BulletinKind::Cast, text_bytes("cast"), k2);
    let ghost x7 = es@.last();
    push_entry(
        &mut es,
        &mut prev,
        BulletinKind::VoterAuthorization,
        numbered_bytes("placeholder-authorization-", 3),
        no_bytes(),
    );
    let ghost x8 = es@.last();
    push_entry(&mut es, &mut prev, BulletinKind::Cast, text_bytes("cast"), k3);
    let ghost x9 = es@.last();
    // Voter 4 takes the Benaloh challenge.
    push_entry(&mut es, &mut prev, BulletinKind::Spoil, text_bytes("spoiled-by-check"), k4);
    let ghost x10 = es@.last();
    let ghost v = seq![x0, x1, x2, x3, x4, x5, x6, x7, x8, x9, x10];
    assert(es@ =~= v);
    proof {
        lemma_mini_board(v);
        lemma_chain_of_eleven(v, eh@);
    }
    (es, prev)
}

/// The board segment of site `site-1`, chained from the election hash and
/// signed with the board key `dbb`.
fn mini_segment_of(eh: &Bytes, dbb: &[u8; 32]) -> (s: BoardSegment)
    ensures
        mini_segment(s, eh@),
        s.dbb_verifying_key@ == ed25519_public_key(dbb@),
{
    let (es, head) = mini_entries_of(eh);
    let mut s = BoardSegment {
        schema_version: text_of(SCHEMA_VERSION),
        election_hash: eh.duplicate(),
        site_id: text_of("site-1"),
        day: text_of("2026-07-12"),
        previous_segment_head: eh.duplicate(),
        segment_head: head,
        entries: es,
        dbb_verifying_key: public_key(dbb),
        signature: no_bytes(),
    };
    let input = s.signing_input();
    s.signature = signature_by(dbb, input.as_slice());
    assert(input@ == s.spec_signing_input());
    s
}

fn option_total(id: &str, count: u64) -> (o: OptionTotal)
    ensures
        o.option_id@ == id@,
        o.count == count,
{
    OptionTotal { option_id: text_of(id), count }
}

/// Contest `c1` with A=2 and B=1.
fn mini_totals_of() -> (cs: Vec<ContestTotals>)
    ensures
        mini_totals(cs@),
{
    vec![ContestTotals { contest_id: text_of("c1"), options: vec![option_total("A", 2), option_total("B", 1)] }]
}

/// The report of tabulator `tab-1`, signed with its key `tab`.
fn mini_report_of(eh: &Bytes, tab: &[u8; 32]) -> (t: TabulatorReport)
    ensures
        mini_report(t, eh@),
{
    let mut t = TabulatorReport {
        schema_version: text_of(SCHEMA_VERSION),
        election_hash: eh.duplicate(),
        site_id: text_of("site-1"),
        tab_id: text_of("tab-1"),
        day: text_of("2026-07-12"),
        totals: mini_totals_of(),
        cards_regular: 3,
        cards_provisional: 0,
        cards_rejected: 0,
        tab_verifying_key: public_key(tab),
        signature: no_bytes(),
    };
    let input = t.signing_input();
    t.signature = signature_by(tab, input.as_slice());
    assert(input@ == t.spec_signing_input());
    t
}

/// The attestation of the segment's head and counts and of the report's
/// hash, signed with the board key `dbb`.
fn mini_attestation_of(eh: &Bytes, s: &BoardSegment, t: &TabulatorReport, dbb: &[u8; 32]) -> (a:
    ChainHeadAttestation)
    requires
        s.dbb_verifying_key@ == ed25519_public_key(dbb@),
    ensures
        mini_attestation(a, *s, *t, eh@),
{
    let report_input = t.signing_input();
    let report_hash = crypto::hash256(report_input.as_slice());
    let mut a = ChainHeadAttestation {
        schema_version: text_of(SCHEMA_VERSION),
        election_hash: eh.duplicate(),
        site_id: text_of("site-1"),
        day: text_of("2026-07-12"),
        head: s.segment_head.duplicate(),
        counts: SiteCounts { submitted: 4, cast: 3, spoiled: 1, provisional_pending: 0 },
        tabulator_report_hashes: vec![bytes_from(&report_hash)],
        dbb_verifying_key: public_key(dbb),
        signature: no_bytes(),
    };
    let input = a.signing_input();
    a.signature = signature_by(dbb, input.as_slice());
    assert(input@ == a.spec_signing_input());
    a
}

/// The disposition of voter 4's challenged ballot, signed with the election
/// authority's key `ea`.
fn mini_disposition_of(c: &ElectionConfigRecord, s: &BoardSegment, ea: &[u8; 32]) -> (d:
    DispositionRecord)
    requires
        c.authorities@.len() == 1,
        c.authorities@[0].verifying_key@ == ed25519_public_key(ea@),
        s.entries@.len() == 11,
    ensures
        mini_disposition(d, *c, *s),
{
    let mut d = DispositionRecord {
        schema_version: text_of(SCHEMA_VERSION),
        election_hash: c.election_hash.duplicate(),
        subject: s.entries[3].entry_hash.duplicate(),
        decision: DispositionDecision::SpoiledByCheck,
        reason_category: text_of("benaloh-challenge"),
        signatures: Vec::new(),
    };
    let input = d.signing_input();
    d.signatures = vec![endorsement(text_of("election-authority"), ea, input.as_slice())];
    assert(input@ == d.spec_signing_input());
    d
}

fn mix_round(i: u64) -> (m: MixRound)
    ensures
        m.trustee@ == numbered("trustee-"@, i as nat),
        m.ciphertexts@ == schema::str_bytes(numbered("placeholder-mix-"@, i as nat)),
        m.proof@ == schema::str_bytes(numbered("placeholder-tw-proof-"@, i as nat)),
{
    MixRound {
        trustee: numbered_text("trustee-", i),
        ciphertexts: numbered_bytes("placeholder-mix-", i),
        proof: numbered_bytes("placeholder-tw-proof-", i),
    }
}

fn partial_decryption(i: u64) -> (p: PartialDecryptionSet)
    ensures
        p.trustee@ == numbered("trustee-"@, i as nat),
        p.factors@ == schema::str_bytes(numbered("placeholder-factors-"@, i as nat)),
        p.proofs@ == schema::str_bytes(numbered("placeholder-cp-proofs-"@, i as nat)),
{
    PartialDecryptionSet {
        trustee: numbered_text("trustee-", i),
        factors: numbered_bytes("placeholder-factors-", i),
        proofs: numbered_bytes("placeholder-cp-proofs-", i),
    }
}

/// The transcript over the three cast cryptograms, signed by trustees 1
/// and 2 with their keys `t1` and `t2`.
fn mini_transcript_of(c: &ElectionConfigRecord, s: &BoardSegment, t1: &[u8; 32], t2: &[u8; 32]) -> (t:
    TallyTranscript)
    requires
        c.trustees@.len() == 3,
        c.trustees@[0].verifying_key@ == ed25519_public_key(t1@),
        c.trustees@[1].verifying_key@ == ed25519_public_key(t2@),
        s.entries@.len() == 11,
    ensures
        mini_transcript(t, *c, *s),
{
    let mut t = TallyTranscript {
        schema_version: text_of(SCHEMA_VERSION),
        election_hash: c.election_hash.duplicate(),
        input_trackers: vec![
            s.entries[0].entry_hash.duplicate(),
            s.entries[1].entry_hash.duplicate(),
            s.entries[2].entry_hash.duplicate(),
        ],
        input_ciphertexts: text_bytes("placeholder-stripped-ciphertexts"),
        mix_rounds: vec![mix_round(1), mix_round(2)],
        partial_decryptions: vec![partial_decryption(1), partial_decryption(2)],
        plaintexts: text_bytes("placeholder-plaintexts"),
        tallies: mini_totals_of(),
        trustee_signatures: Vec::new(),
    };
    let input = t.signing_input();
    t.trustee_signatures = vec![
        endorsement(numbered_text("trustee-", 1), t1, input.as_slice()),
        endorsement(numbered_text("trustee-", 2), t2, input.as_slice()),
    ];
    assert(input@ == t.spec_signing_input());
    assert forall|v: int| 0 <= v < 3 implies (#[trigger] t.input_trackers@[v])@
        == s.entries@[v].entry_hash@ by {
        if v == 0 {
        } else if v == 1 {
        } else {
        }
    }
    assert forall|i: int| 0 <= i < 2 implies {
        &&& (#[trigger] t.mix_rounds@[i]).trustee@ == numbered("trustee-"@, (i + 1) as nat)
        &&& t.mix_rounds@[i].ciphertexts@ == schema::str_bytes(
            numbered("placeholder-mix-"@, (i + 1) as nat),
        )
        &&& t.mix_rounds@[i].proof@ == schema::str_bytes(
            numbered("placeholder-tw-proof-"@, (i + 1) as nat),
        )
        &&& t.partial_decryptions@[i].trustee@ == numbered("trustee-"@, (i + 1) as nat)
        &&& t.partial_decryptions@[i].factors@ == schema::str_bytes(
            numbered("placeholder-factors-"@, (i + 1) as nat),
        )
        &&& t.partial_decryptions@[i].proofs@ == schema::str_bytes(
            numbered("placeholder-cp-proofs-"@, (i + 1) as nat),
        )
        &&& t.trustee_signatures@[i].signer@ == numbered("trustee-"@, (i + 1) as nat)
        &&& signed_by(
            c.trustees@[i].verifying_key@,
            t.spec_signing_input(),
            t.trustee_signatures@[i].signature@,
        )
    } by {
        if i == 0 {
        } else {
        }
    }
    t
}

/// A mini election record with fresh random keys that passes every
/// implemented check (see the module documentation for its contents).
pub fn mini_record() -> (r: ElectionRecord)
    ensures
        is_mini_record(r),
{
    let t1 = generate_signing_key();
    let t2 = generate_signing_key();
    let t3 = generate_signing_key();
    let ea = generate_signing_key();
    let dbb = generate_signing_key();
    let tab = generate_signing_key();
    let config = mini_config_of(&t1, &t2, &t3, &ea);
    let eh = config.election_hash.duplicate();
    let segment = mini_segment_of(&eh, &dbb);
    let report = mini_report_of(&eh, &tab);
    let attestation = mini_attestation_of(&eh, &segment, &report, &dbb);
    let disposition = mini_disposition_of(&config, &segment, &ea);
    let transcript = mini_transcript_of(&config, &segment, &t1, &t2);
    ElectionRecord {
        config,
        segments: vec![segment],
        attestations: vec![attestation],
        dispositions: vec![disposition],
        tabulator_reports: vec![report],
        transcript: Some(transcript),
    }
}

/// The mini election record passes the structure check.
pub proof fn lemma_mini_record_structure(r: ElectionRecord)
    requires
        is_mini_record(r),
    ensures
        structure::structure_problems(r) == Seq::<Seq<char>>::empty(),
{
    let eh = r.config.election_hash@;
    let t = r.transcript->0;
    seqs::lemma_flat_map_one(
        r.segments@,
        |s: BoardSegment| structure::version_problem("segment"@, s.schema_version@),
    );
    seqs::lemma_flat_map_one(
        r.attestations@,
        |a: ChainHeadAttestation| structure::version_problem("attestation"@, a.schema_version@),
    );
    seqs::lemma_flat_map_one(
        r.dispositions@,
        |d: DispositionRecord| structure::version_problem("disposition"@, d.schema_version@),
    );
    seqs::lemma_flat_map_one(
        r.tabulator_reports@,
        |t: TabulatorReport| structure::version_problem("tabulator-report"@, t.schema_version@),
    );
    assert(structure::version_problems(r) =~= Seq::<Seq<char>>::empty());
    seqs::lemma_flat_map_one(
        r.segments@,
        |s: BoardSegment| structure::mismatch_problem(crate::checks::labels::segment_label(s), s.election_hash@, eh),
    );
    seqs::lemma_flat_map_one(
        r.attestations@,
        |a: ChainHeadAttestation|
            structure::mismatch_problem(crate::checks::labels::attestation_label(a), a.election_hash@, eh),
    );
    seqs::lemma_flat_map_one(
        r.dispositions@,
        |d: DispositionRecord| structure::mismatch_problem(crate::checks::labels::disposition_label(d), d.election_hash@, eh),
    );
    seqs::lemma_flat_map_one(
        r.tabulator_reports@,
        |t: TabulatorReport| structure::mismatch_problem(crate::checks::labels::report_label(t), t.election_hash@, eh),
    );
    assert(structure::mismatch_problems(r) =~= Seq::<Seq<char>>::empty());
    seqs::lemma_flat_map_one(
        r.attestations@,
        |a: ChainHeadAttestation| structure::attestation_key_problem(r.segments@, a),
    );
    assert(structure::last_site_before(r.segments@, r.attestations@[0].site_id@, 1) == Some(0int));
    let fs = |j: int| structure::segment_key_problem(r.segments@, j);
    let ft = |j: int| structure::report_key_problem(r.tabulator_reports@, j);
    assert(seqs::flat_range(0, fs) =~= Seq::<Seq<char>>::empty());
    assert(seqs::flat_range(0, ft) =~= Seq::<Seq<char>>::empty());
    assert(structure::segment_key_problem(r.segments@, 0) =~= Seq::<Seq<char>>::empty());
    assert(structure::report_key_problem(r.tabulator_reports@, 0) =~= Seq::<Seq<char>>::empty());
    assert(seqs::flat_range(1, fs) =~= Seq::<Seq<char>>::empty());
    assert(seqs::flat_range(1, ft) =~= Seq::<Seq<char>>::empty());
    assert(structure::key_problems(r) =~= Seq::<Seq<char>>::empty());
    assert(structure::structure_problems(r) =~= Seq::<Seq<char>>::empty());
}

/// The mini election record passes the chain-integrity check.
pub proof fn lemma_mini_record_chain(r: ElectionRecord)
    requires
        is_mini_record(r),
    ensures
        chain::chain_problems(r) == Seq::<Seq<char>>::empty(),
{
    let segs = r.segments@;
    let s = segs[0];
    let k = chain::segment_order_key(s, 0);
    assert(chain::segment_order_keys(segs) =~= seq![k]);
    keys::lemma_sorted_keys_one(k);
    assert(k.last() == 0);
    assert(chain::ordered_segment(segs, 0) == s);
    let fe = |i: int| chain::entry_problems(s, i);
    assert forall|i: int| 0 <= i < s.entries@.len() implies (#[trigger] fe(i)).len() == 0 by {
        assert(chain::expected_previous_hash(s, i) == s.entries@[i].previous_hash@);
    }
    seqs::lemma_flat_range_none(s.entries@.len() as int, fe);
    assert(chain::segment_problems(r, 0) =~= Seq::<Seq<char>>::empty());
    let fp = |p: int| chain::segment_problems(r, p);
    seqs::lemma_flat_range_none(1, fp);
}

/// The mini board's entries recount to 4 submissions, 3 regular casts, 1
/// spoil and no provisional casts.
proof fn lemma_mini_recount(s: BoardSegment)
    requires
        mini_entries(s.entries@),
    ensures
        attestations::recount(s) == (4nat, 3nat, 1nat, 0nat),
{
    let es = s.entries@;
    assert(es[0].kind is Submission);
    assert(es[1].kind is Submission);
    assert(es[2].kind is Submission);
    assert(es[3].kind is Submission);
    assert(es[4 + 2 * 0int].kind is VoterAuthorization);
    assert(es[4 + 2 * 1int].kind is VoterAuthorization);
    assert(es[4 + 2 * 2int].kind is VoterAuthorization);
    assert(es[5].kind is Cast && !es[5].flags.provisional);
    assert(es[7].kind is Cast && !es[7].flags.provisional);
    assert(es[9].kind is Cast && !es[9].flags.provisional);
    assert(es[10].kind is Spoil);
    reveal_with_fuel(seqs::count_where, 12);
    assert(es.drop_last() =~= es.take(10));
}

/// The mini election record passes the attestation check.
pub proof fn lemma_mini_record_attestations(r: ElectionRecord)
    requires
        is_mini_record(r),
    ensures
        attestations::attestation_check_problems(r) == Seq::<Seq<char>>::empty(),
{
    let segs = r.segments@;
    let a = r.attestations@[0];
    assert(attestations::last_segment_before(segs, a.site_id@, a.day@, 1) == Some(0int));
    lemma_mini_recount(segs[0]);
    assert(attestations::attestation_problems(segs, a) =~= Seq::<Seq<char>>::empty());
    seqs::lemma_flat_map_one(
        r.attestations@,
        |a: ChainHeadAttestation| attestations::attestation_problems(r.segments@, a),
    );
    assert(attestations::is_attested(r.attestations@, segs[0]));
    seqs::lemma_flat_map_one(
        r.segments@,
        |s: BoardSegment| attestations::unattested_problem(r.attestations@, s),
    );
    assert(attestations::attestation_check_problems(r) =~= Seq::<Seq<char>>::empty());
}

/// The names `trustee-1` to `trustee-3` are distinct from each other and
/// from `election-authority`.
proof fn lemma_mini_names_distinct()
    ensures
        forall|i: nat, j: nat|
            1 <= i <= 3 && 1 <= j <= 3 && i != j ==> #[trigger] numbered("trustee-"@, i)
                != #[trigger] numbered("trustee-"@, j),
        forall|i: nat| 1 <= i <= 3 ==> #[trigger] numbered("trustee-"@, i) != "election-authority"@,
{
    reveal_strlit("trustee-");
    reveal_strlit("election-authority");
    assert forall|i: nat, j: nat|
        1 <= i <= 3 && 1 <= j <= 3 && i != j implies #[trigger] numbered("trustee-"@, i)
        != #[trigger] numbered("trustee-"@, j) by {
        assert(numbered("trustee-"@, i)[8] == text::digit_char(i as int));
        assert(numbered("trustee-"@, j)[8] == text::digit_char(j as int));
    }
    assert forall|i: nat| 1 <= i <= 3 implies #[trigger] numbered("trustee-"@, i)
        != "election-authority"@ by {
        assert(numbered("trustee-"@, i)[0] == 't');
        assert("election-authority"@[0] == 'e');
    }
}

/// In the mini configuration, `trustee-i` names the `i`-th trustee's key
/// and `election-authority` the authority's.
proof fn lemma_mini_named_keys(c: ElectionConfigRecord)
    requires
        mini_config(c),
    ensures
        forall|i: int|
            0 <= i < 3 ==> signatures::named_key(c, #[trigger] numbered("trustee-"@, (i + 1) as nat))
                == Some(c.trustees@[i].verifying_key@),
        signatures::named_key(c, "election-authority"@) == Some(c.authorities@[0].verifying_key@),
        forall|i: int|
            0 <= i < 3 ==> signatures::is_trustee(c, #[trigger] numbered("trustee-"@, (i + 1) as nat)),
{
    lemma_mini_names_distinct();
    let ts = c.trustees@;
    let au = c.authorities@;
    assert(ts[0].name@ == numbered("trustee-"@, 1));
    assert(ts[1].name@ == numbered("trustee-"@, 2));
    assert(ts[2].name@ == numbered("trustee-"@, 3));
    assert forall|i: int| 0 <= i < 3 implies signatures::named_key(
        c,
        #[trigger] numbered("trustee-"@, (i + 1) as nat),
    ) == Some(c.trustees@[i].verifying_key@) && signatures::is_trustee(
        c,
        numbered("trustee-"@, (i + 1) as nat),
    ) by {
        let name = numbered("trustee-"@, (i + 1) as nat);
        assert(au[0].name@ != name);
        assert(signatures::last_member_before(au, name, 0) is None);
        assert(signatures::last_member_before(au, name, 1) is None);
        if i == 0 {
            assert(signatures::last_member_before(ts, name, 1) == Some(0int));
            assert(signatures::last_member_before(ts, name, 2) == Some(0int));
            assert(signatures::last_member_before(ts, name, 3) == Some(0int));
        } else if i == 1 {
            assert(signatures::last_member_before(ts, name, 2) == Some(1int));
            assert(signatures::last_member_before(ts, name, 3) == Some(1int));
        } else {
            assert(signatures::last_member_before(ts, name, 3) == Some(2int));
        }
    }
    assert(signatures::last_member_before(au, "election-authority"@, 1) == Some(0int));
}

/// The mini configuration's endorsements all verify and every trustee has
/// endorsed.
proof fn lemma_mini_endorsements(c: ElectionConfigRecord)
    requires
        mini_config(c),
    ensures
        seqs::flat_map(c.signatures@, |s: NamedSignature| signatures::endorsement_problems(c, s))
            == Seq::<Seq<char>>::empty(),
        seqs::flat_map(c.trustees@, |m: TrusteePublic| signatures::missing_endorsement(c, m))
            == Seq::<Seq<char>>::empty(),
{
    lemma_mini_named_keys(c);
    let f1 = |s: NamedSignature| signatures::endorsement_problems(c, s);
    assert forall|i: int| 0 <= i < c.signatures@.len() implies (#[trigger] f1(
        c.signatures@[i],
    )).len() == 0 by {
        assert(signatures::named_key(c, numbered("trustee-"@, (i + 1) as nat)) == Some(
            c.trustees@[i].verifying_key@,
        ));
    }
    seqs::lemma_flat_map_none(c.signatures@, f1);
    let f2 = |m: TrusteePublic| signatures::missing_endorsement(c, m);
    assert forall|i: int| 0 <= i < c.trustees@.len() implies (#[trigger] f2(c.trustees@[i])).len()
        == 0 by {
        assert(c.signatures@[i].signer@ == c.trustees@[i].name@);
        assert(signatures::has_endorsed(c, c.trustees@[i].name@));
    }
    seqs::lemma_flat_map_none(c.trustees@, f2);
}

/// The mini transcript's signatures all verify and meet the threshold.
proof fn lemma_mini_transcript_signatures(c: ElectionConfigRecord, t: TallyTranscript, s: BoardSegment)
    requires
        mini_config(c),
        mini_transcript(t, c, s),
    ensures
        signatures::transcript_problems(c, t) == Seq::<Seq<char>>::empty(),
{
    lemma_mini_named_keys(c);
    lemma_mini_names_distinct();
    let f3 = |s: NamedSignature| signatures::transcript_sig_problems(c, t, s);
    assert forall|i: int| 0 <= i < t.trustee_signatures@.len() implies (#[trigger] f3(
        t.trustee_signatures@[i],
    )).len() == 0 by {
        assert(t.mix_rounds@[i].trustee@ == numbered("trustee-"@, (i + 1) as nat));
        assert(signatures::named_key(c, numbered("trustee-"@, (i + 1) as nat)) == Some(
            c.trustees@[i].verifying_key@,
        ));
    }
    seqs::lemma_flat_map_none(t.trustee_signatures@, f3);
    let n1 = numbered("trustee-"@, 1);
    let n2 = numbered("trustee-"@, 2);
    let fk = |s: NamedSignature|
        if signatures::is_trustee(c, s.signer@) {
            seq![s.signer@]
        } else {
            Seq::empty()
        };
    let sg = t.trustee_signatures@;
    assert(t.mix_rounds@[0].trustee@ == n1);
    assert(t.mix_rounds@[1].trustee@ == n2);
    assert(sg[0].signer@ == n1);
    assert(sg[1].signer@ == n2);
    assert(signatures::is_trustee(c, numbered("trustee-"@, (0 + 1) as nat)));
    assert(signatures::is_trustee(c, numbered("trustee-"@, (1 + 1) as nat)));
    assert(sg.drop_last().drop_last().len() == 0);
    seqs::lemma_flat_map_one(sg.drop_last(), fk);
    assert(sg.drop_last()[0] == sg[0]);
    assert(seqs::flat_map(sg.drop_last(), fk) =~= seq![n1]);
    assert(signatures::trustee_signers(c, t) =~= seq![n1, n2]);
    assert(n1 != n2);
    assert(seq![n1, n2].drop_last() =~= seq![n1]);
    assert(seq![n1].drop_last() =~= Seq::<Seq<char>>::empty());
    assert(signatures::distinct_count(Seq::<Seq<char>>::empty()) == 0);
    assert(!Seq::<Seq<char>>::empty().contains(n1));
    assert(signatures::distinct_count(seq![n1]) == 1);
    assert(!seq![n1].contains(n2));
    assert(signatures::distinct_count(seq![n1, n2]) == 2);
    assert(signatures::transcript_problems(c, t) =~= Seq::<Seq<char>>::empty());
}

/// The mini disposition's authority signature verifies.
proof fn lemma_mini_disposition_signatures(c: ElectionConfigRecord, d: DispositionRecord, s: BoardSegment)
    requires
        mini_config(c),
        mini_disposition(d, c, s),
    ensures
        signatures::disposition_problems(c, d) == Seq::<Seq<char>>::empty(),
{
    lemma_mini_named_keys(c);
    seqs::lemma_flat_map_one(
        d.signatures@,
        |g: NamedSignature| signatures::disposition_sig_problems(c, d, g),
    );
    assert(signatures::disposition_problems(c, d) =~= Seq::<Seq<char>>::empty());
}

/// The mini board segment's, attestation's and report's signatures verify.
proof fn lemma_mini_device_signatures(r: ElectionRecord)
    requires
        r.segments@.len() == 1,
        r.attestations@.len() == 1,
        r.tabulator_reports@.len() == 1,
        signed_by(
            r.segments@[0].dbb_verifying_key@,
            r.segments@[0].spec_signing_input(),
            r.segments@[0].signature@,
        ),
        signed_by(
            r.attestations@[0].dbb_verifying_key@,
            r.attestations@[0].spec_signing_input(),
            r.attestations@[0].signature@,
        ),
        signed_by(
            r.tabulator_reports@[0].tab_verifying_key@,
            r.tabulator_reports@[0].spec_signing_input(),
            r.tabulator_reports@[0].signature@,
        ),
    ensures
        seqs::flat_map(
            r.segments@,
            |s: BoardSegment|
                signatures::sig_problem(
                    crate::checks::labels::segment_label(s),
                    s.dbb_verifying_key@,
                    s.spec_signing_input(),
                    s.signature@,
                ),
        ) == Seq::<Seq<char>>::empty(),
        seqs::flat_map(
            r.attestations@,
            |a: ChainHeadAttestation|
                signatures::sig_problem(
                    crate::checks::labels::attestation_label(a),
                    a.dbb_verifying_key@,
                    a.spec_signing_input(),
                    a.signature@,
                ),
        ) == Seq::<Seq<char>>::empty(),
        seqs::flat_map(
            r.tabulator_reports@,
            |t: TabulatorReport|
                signatures::sig_problem(
                    crate::checks::labels::report_label(t),
                    t.tab_verifying_key@,
                    t.spec_signing_input(),
                    t.signature@,
                ),
        ) == Seq::<Seq<char>>::empty(),
{
    seqs::lemma_flat_map_one(
        r.segments@,
        |s: BoardSegment|
            signatures::sig_problem(
                crate::checks::labels::segment_label(s),
                s.dbb_verifying_key@,
                s.spec_signing_input(),
                s.signature@,
            ),
    );
    seqs::lemma_flat_map_one(
        r.attestations@,
        |a: ChainHeadAttestation|
            signatures::sig_problem(
                crate::checks::labels::attestation_label(a),
                a.dbb_verifying_key@,
                a.spec_signing_input(),
                a.signature@,
            ),
    );
    seqs::lemma_flat_map_one(
        r.tabulator_reports@,
        |t: TabulatorReport|
            signatures::sig_problem(
                crate::checks::labels::report_label(t),
                t.tab_verifying_key@,
                t.spec_signing_input(),
                t.signature@,
            ),
    );
}

/// The mini election record passes the signature check.
pub proof fn lemma_mini_record_signatures(r: ElectionRecord)
    requires
        is_mini_record(r),
    ensures
        signatures::signature_problems(r) == Seq::<Seq<char>>::empty(),
{
    let c = r.config;
    let t = r.transcript->0;
    lemma_mini_endorsements(c);
    lemma_mini_transcript_signatures(c, t, r.segments@[0]);
    lemma_mini_disposition_signatures(c, r.dispositions@[0], r.segments@[0]);
    lemma_mini_device_signatures(r);
    seqs::lemma_flat_map_one(
        r.dispositions@,
        |d: DispositionRecord| signatures::disposition_problems(c, d),
    );
    assert(signatures::signature_problems(r) =~= Seq::<Seq<char>>::empty());
}

/// The mini election record passes the card-accounting check.
pub proof fn lemma_mini_record_accounting(r: ElectionRecord)
    requires
        is_mini_record(r),
    ensures
        accounting::accounting_problems(r) == Seq::<Seq<char>>::empty(),
{
    let seg = r.segments@[0];
    let rep = r.tabulator_reports@[0];
    let k = accounting::segment_key(seg);
    assert(accounting::report_key(rep) == k);
    assert(accounting::segment_keys_of(r.segments@) =~= seq![k]);
    assert(accounting::report_keys_of(r.tabulator_reports@) =~= seq![k]);
    keys::lemma_sorted_keys_one(k);
    lemma_mini_recount(seg);
    reveal_with_fuel(seqs::sum_of, 2);
    assert(r.segments@.drop_last().len() == 0);
    assert(r.tabulator_reports@.drop_last().len() == 0);
    assert(accounting::board_counts(r, k) == (3nat, 0nat));
    assert(accounting::tab_counts(r, k) == (3nat, 0nat));
    assert(accounting::board_problem(r, k) =~= Seq::<Seq<char>>::empty());
    assert(accounting::board_keys(r)[0] == k);
    assert(accounting::tab_only_problem(r, k) =~= Seq::<Seq<char>>::empty());
    seqs::lemma_flat_map_one(accounting::board_keys(r), |k: Seq<u64>| accounting::board_problem(r, k));
    seqs::lemma_flat_map_one(accounting::tab_keys(r), |k: Seq<u64>| accounting::tab_only_problem(r, k));
    assert(accounting::accounting_problems(r) =~= Seq::<Seq<char>>::empty());
}

/// The counted lines of the mini totals: (c1, A, 2) then (c1, B, 1).
proof fn lemma_mini_lines(cs: Seq<ContestTotals>)
    requires
        mini_totals(cs),
    ensures
        reconciliation::totals_lines(cs) == seq![("c1"@, "A"@, 2nat), ("c1"@, "B"@, 1nat)],
{
    let c = cs[0];
    seqs::lemma_flat_map_one(
        cs,
        |c: ContestTotals|
            c.options@.map_values(|o: OptionTotal| (c.contest_id@, o.option_id@, o.count as nat)),
    );
    assert(c.options@.map_values(|o: OptionTotal| (c.contest_id@, o.option_id@, o.count as nat))
        =~= seq![("c1"@, "A"@, 2nat), ("c1"@, "B"@, 1nat)]);
}

/// The mini election record passes the reconciliation check.
pub proof fn lemma_mini_record_reconciliation(r: ElectionRecord)
    requires
        is_mini_record(r),
    ensures
        reconciliation::reconciliation_status(r) == StatusView::Pass,
{
    let t = r.transcript->0;
    assert(!reconciliation::has_included_provisional(r)) by {
        if reconciliation::has_included_provisional(r) {
            let i = choose|i: int|
                0 <= i < r.dispositions@.len()
                    && (#[trigger] r.dispositions@[i]).decision is IncludeProvisional;
            assert(i == 0);
        }
    }
    let rep = r.tabulator_reports@[0];
    lemma_mini_lines(rep.totals@);
    lemma_mini_lines(t.tallies@);
    seqs::lemma_flat_map_one(
        r.tabulator_reports@,
        |t: TabulatorReport| reconciliation::totals_lines(t.totals@),
    );
    assert(reconciliation::tab_lines(r) == reconciliation::totals_lines(t.tallies@));
    let ks = reconciliation::reconciliation_keys(r, t);
    let g = |k: Seq<u64>| reconciliation::reconciliation_problem(r, t, k);
    assert forall|i: int| 0 <= i < ks.len() implies (#[trigger] g(ks[i])).len() == 0 by {
    }
    seqs::lemma_flat_map_none(ks, g);
}

/// The four submissions of the mini board have distinct trackers (entry
/// hashes). Each tracker is the SHA3-256 of a different input, so only a
/// hash collision could break this.
pub open spec fn mini_trackers_distinct(s: BoardSegment) -> bool {
    forall|i: int, j: int|
        #![trigger s.entries@[i], s.entries@[j]]
        0 <= i < j < 4 ==> s.entries@[i].entry_hash@ != s.entries@[j].entry_hash@
}

/// Each mini board entry's kind, flags and subject, one by one.
proof fn lemma_mini_entry_facts(es: Seq<BulletinEntry>)
    requires
        mini_entries(es),
    ensures
        es.len() == 11,
        forall|i: int| 0 <= i < 11 ==> !(#[trigger] es[i]).flags.provisional && !es[i].flags.test,
        es[0].kind is Submission,
        es[1].kind is Submission,
        es[2].kind is Submission,
        es[3].kind is Submission,
        es[4].kind is VoterAuthorization,
        es[5].kind is Cast && es[5].subject@ == es[0].entry_hash@,
        es[6].kind is VoterAuthorization,
        es[7].kind is Cast && es[7].subject@ == es[1].entry_hash@,
        es[8].kind is VoterAuthorization,
        es[9].kind is Cast && es[9].subject@ == es[2].entry_hash@,
        es[10].kind is Spoil && es[10].subject@ == es[3].entry_hash@,
{
    assert(entry_is(es[4 + 2 * 0int], BulletinKind::VoterAuthorization, numbered("placeholder-authorization-"@, 1), Seq::empty()));
    assert(entry_is(es[4 + 2 * 1int], BulletinKind::VoterAuthorization, numbered("placeholder-authorization-"@, 2), Seq::empty()));
    assert(entry_is(es[4 + 2 * 2int], BulletinKind::VoterAuthorization, numbered("placeholder-authorization-"@, 3), Seq::empty()));
    assert forall|i: int| 0 <= i < 11 implies !(#[trigger] es[i]).flags.provisional && !es[i].flags.test by {
        if i < 4 {
        } else if i == 4 || i == 6 || i == 8 {
            assert(es[4 + 2 * ((i - 4) / 2)] == es[i]);
        } else if i == 5 || i == 7 || i == 9 {
            assert(es[4 + 2 * ((i - 5) / 2)] == es[i - 1]);
        } else {
        }
    }
}

/// A cast found before position `n` stands before `n`.
proof fn lemma_last_cast_in_range(es: Seq<BulletinEntry>, subj: Seq<u8>, n: int)
    ensures
        dispositions::last_cast_before(es, subj, n) matches Some(c) ==> 0 <= c < n && c < n,
    decreases n,
{
    if n > 0 {
        lemma_last_cast_in_range(es, subj, n - 1);
    }
}

/// Where the latest cast of each mini submission stands: voters 1 to 3 at
/// positions 5, 7 and 9, none for voter 4, and no earlier cast of the
/// same submission.
proof fn lemma_mini_latest_casts(es: Seq<BulletinEntry>)
    requires
        mini_entries(es),
        es[0].entry_hash@ != es[1].entry_hash@,
        es[0].entry_hash@ != es[2].entry_hash@,
        es[0].entry_hash@ != es[3].entry_hash@,
        es[1].entry_hash@ != es[2].entry_hash@,
        es[1].entry_hash@ != es[3].entry_hash@,
        es[2].entry_hash@ != es[3].entry_hash@,
    ensures
        dispositions::latest_cast(es, es[0].entry_hash@) == Some(5int),
        dispositions::latest_cast(es, es[1].entry_hash@) == Some(7int),
        dispositions::latest_cast(es, es[2].entry_hash@) == Some(9int),
        dispositions::latest_cast(es, es[3].entry_hash@) is None,
        dispositions::last_cast_before(es, es[0].entry_hash@, 5) is None,
        dispositions::last_cast_before(es, es[1].entry_hash@, 7) is None,
        dispositions::last_cast_before(es, es[2].entry_hash@, 9) is None,
{
    lemma_mini_entry_facts(es);
    reveal_with_fuel(dispositions::last_cast_before, 12);
}

/// Every cast key of the mini board names the tracker of voter 1, 2 or 3.
proof fn lemma_mini_cast_key(es: Seq<BulletinEntry>, k: Seq<u64>)
    requires
        mini_entries(es),
        dispositions::cast_keys(es).contains(k),
    ensures
        keys::key_bytes(k) == es[0].entry_hash@ || keys::key_bytes(k) == es[1].entry_hash@
            || keys::key_bytes(k) == es[2].entry_hash@,
{
    lemma_mini_entry_facts(es);
    let f = |e: BulletinEntry|
        if e.kind is Cast {
            seq![keys::bytes_key(e.subject@)]
        } else {
            Seq::empty()
        };
    seqs::lemma_flat_map_member(es, f, k);
    let i = choose|i: int| 0 <= i < es.len() && (#[trigger] f(es[i])).contains(k);
    assert(es[i].kind is Cast);
    assert(k == keys::bytes_key(es[i].subject@));
    keys::lemma_key_bytes_of_bytes_key(es[i].subject@);
    assert(i == 5 || i == 7 || i == 9);
}

/// Every spoil key of the mini board names the tracker of voter 4.
proof fn lemma_mini_spoil_key(es: Seq<BulletinEntry>, k: Seq<u64>)
    requires
        mini_entries(es),
        dispositions::spoil_keys(es).contains(k),
    ensures
        keys::key_bytes(k) == es[3].entry_hash@,
{
    lemma_mini_entry_facts(es);
    let f = |e: BulletinEntry|
        if e.kind is Spoil {
            seq![keys::bytes_key(e.subject@)]
        } else {
            Seq::empty()
        };
    seqs::lemma_flat_map_member(es, f, k);
    let i = choose|i: int| 0 <= i < es.len() && (#[trigger] f(es[i])).contains(k);
    assert(es[i].kind is Spoil);
    assert(k == keys::bytes_key(es[i].subject@));
    keys::lemma_key_bytes_of_bytes_key(es[i].subject@);
    assert(i == 10);
}

/// The mini board's entries, as the dispositions check gathers them, with
/// the six tracker inequalities spelled out.
proof fn lemma_mini_all_entries(r: ElectionRecord)
    requires
        r.segments@.len() == 1,
        mini_entries(r.segments@[0].entries@),
        mini_trackers_distinct(r.segments@[0]),
    ensures
        dispositions::all_entries(r.segments@) == r.segments@[0].entries@,
        mini_entries(r.segments@[0].entries@),
        ({
            let es = r.segments@[0].entries@;
            &&& es[0].entry_hash@ != es[1].entry_hash@
            &&& es[0].entry_hash@ != es[2].entry_hash@
            &&& es[0].entry_hash@ != es[3].entry_hash@
            &&& es[1].entry_hash@ != es[2].entry_hash@
            &&& es[1].entry_hash@ != es[3].entry_hash@
            &&& es[2].entry_hash@ != es[3].entry_hash@
        }),
{
    seqs::lemma_flat_map_one(r.segments@, |s: BoardSegment| s.entries@);
    let s = r.segments@[0];
    let es = s.entries@;
    assert(es[0] == s.entries@[0] && es[1] == s.entries@[1] && es[2] == s.entries@[2] && es[3]
        == s.entries@[3]);
}

/// The mini board and disposition are valid: no repeated or unknown casts
/// or spoils, nothing both cast and spoiled, and the disposition names a
/// spoiled submission.
proof fn lemma_mini_validity(r: ElectionRecord)
    requires
        r.segments@.len() == 1,
        mini_entries(r.segments@[0].entries@),
        mini_trackers_distinct(r.segments@[0]),
        r.dispositions@.len() == 1,
        r.dispositions@[0].subject@ == r.segments@[0].entries@[3].entry_hash@,
        r.dispositions@[0].decision == DispositionDecision::SpoiledByCheck,
    ensures
        dispositions::validity_problems(r) == Seq::<Seq<char>>::empty(),
{
    lemma_mini_all_entries(r);
    let es = dispositions::all_entries(r.segments@);
    lemma_mini_entry_facts(es);
    lemma_mini_latest_casts(es);
    let fd = |k: int| dispositions::double_cast_problem(es, k);
    assert forall|k: int| 0 <= k < es.len() implies (#[trigger] fd(k)).len() == 0 by {
        if k == 5 || k == 7 || k == 9 {
        } else {
            assert(!(es[k].kind is Cast));
        }
    }
    seqs::lemma_flat_range_none(es.len() as int, fd);
    let casts = keys::sorted_keys(dispositions::cast_keys(es));
    let spoils = keys::sorted_keys(dispositions::spoil_keys(es));
    keys::lemma_sorted_keys_members(dispositions::cast_keys(es));
    keys::lemma_sorted_keys_members(dispositions::spoil_keys(es));
    let f1 = |k: Seq<u64>| dispositions::cast_and_spoiled_problem(es, k);
    let f2 = |k: Seq<u64>| dispositions::unknown_cast_problem(es, k);
    let f3 = |k: Seq<u64>| dispositions::unknown_spoil_problem(es, k);
    assert forall|i: int| 0 <= i < spoils.len() implies (#[trigger] f1(spoils[i])).len() == 0
        && f3(spoils[i]).len() == 0 by {
        lemma_mini_spoil_key(es, spoils[i]);
        assert(dispositions::is_submission_with(es[3], es[3].entry_hash@));
    }
    assert forall|i: int| 0 <= i < casts.len() implies (#[trigger] f2(casts[i])).len() == 0 by {
        lemma_mini_cast_key(es, casts[i]);
        assert(dispositions::is_submission_with(es[0], es[0].entry_hash@));
        assert(dispositions::is_submission_with(es[1], es[1].entry_hash@));
        assert(dispositions::is_submission_with(es[2], es[2].entry_hash@));
    }
    assert forall|i: int| 0 <= i < spoils.len() implies (#[trigger] f3(spoils[i])).len() == 0 by {
        assert(f1(spoils[i]).len() == 0 && f3(spoils[i]).len() == 0);
    }
    seqs::lemma_flat_map_none(spoils, f1);
    seqs::lemma_flat_map_none(casts, f2);
    seqs::lemma_flat_map_none(spoils, f3);
    let d = r.dispositions@[0];
    assert(dispositions::is_submission_with(es[3], d.subject@));
    assert(dispositions::is_spoil_of(es[10], d.subject@));
    assert(dispositions::disposition_problems(r, 0) =~= Seq::<Seq<char>>::empty());
    let fr = |i: int| dispositions::disposition_problems(r, i);
    seqs::lemma_flat_range_none(1, fr);
    assert(dispositions::validity_problems(r) =~= Seq::<Seq<char>>::empty());
}

/// The mini transcript's input is exactly the cast cryptograms: no
/// undecided provisional cast, no duplicate, nothing missing, nothing
/// extra.
proof fn lemma_mini_completeness(r: ElectionRecord, t: TallyTranscript)
    requires
        r.segments@.len() == 1,
        mini_entries(r.segments@[0].entries@),
        mini_trackers_distinct(r.segments@[0]),
        t.input_trackers@.len() == 3,
        forall|v: int|
            0 <= v < 3 ==> (#[trigger] t.input_trackers@[v])@ == r.segments@[0].entries@[v].entry_hash@,
    ensures
        dispositions::completeness_problems(r, t) == Seq::<Seq<char>>::empty(),
{
    lemma_mini_all_entries(r);
    let es = dispositions::all_entries(r.segments@);
    lemma_mini_entry_facts(es);
    lemma_mini_latest_casts(es);
    let tr = t.input_trackers@;
    assert(tr[0]@ == es[0].entry_hash@);
    assert(tr[1]@ == es[1].entry_hash@);
    assert(tr[2]@ == es[2].entry_hash@);
    let casts = keys::sorted_keys(dispositions::cast_keys(es));
    keys::lemma_sorted_keys_members(dispositions::cast_keys(es));
    let fu = |k: Seq<u64>| dispositions::undecided_problem(r, k);
    assert forall|i: int| 0 <= i < casts.len() implies (#[trigger] fu(casts[i])).len() == 0 by {
        let b = keys::key_bytes(casts[i]);
        lemma_last_cast_in_range(es, b, es.len() as int);
    }
    seqs::lemma_flat_map_none(casts, fu);
    assert(!dispositions::has_duplicate_inputs(t));
    let fm = |k: Seq<u64>| dispositions::missing_problem(r, t, k);
    assert forall|i: int| 0 <= i < casts.len() implies (#[trigger] fm(casts[i])).len() == 0 by {
        lemma_mini_cast_key(es, casts[i]);
        let b = keys::key_bytes(casts[i]);
        if b == es[0].entry_hash@ {
            assert(tr[0]@ == b);
        } else if b == es[1].entry_hash@ {
            assert(tr[1]@ == b);
        } else {
            assert(tr[2]@ == b);
        }
        assert(dispositions::is_input(t, b));
    }
    seqs::lemma_flat_map_none(casts, fm);
    let ins = keys::sorted_keys(dispositions::input_keys(t));
    keys::lemma_sorted_keys_members(dispositions::input_keys(t));
    let fx = |k: Seq<u64>| dispositions::extra_problem(r, k);
    assert forall|i: int| 0 <= i < ins.len() implies (#[trigger] fx(ins[i])).len() == 0 by {
        let k = ins[i];
        let j = choose|j: int| 0 <= j < dispositions::input_keys(t).len() && dispositions::input_keys(t)[j] == k;
        assert(k == keys::bytes_key(tr[j]@));
        keys::lemma_key_bytes_of_bytes_key(tr[j]@);
        let b = keys::key_bytes(k);
        if j == 0 {
            assert(b == es[0].entry_hash@);
            assert(dispositions::latest_cast(es, b) == Some(5int));
        } else if j == 1 {
            assert(b == es[1].entry_hash@);
            assert(dispositions::latest_cast(es, b) == Some(7int));
        } else {
            assert(b == es[2].entry_hash@);
            assert(dispositions::latest_cast(es, b) == Some(9int));
        }
        assert(dispositions::expected_input(r, b));
    }
    seqs::lemma_flat_map_none(ins, fx);
    assert(dispositions::completeness_problems(r, t) =~= Seq::<Seq<char>>::empty());
}

/// The mini election record passes the dispositions check, provided its
/// four submissions have distinct trackers.
#[verifier::spinoff_prover]
#[verifier::rlimit(60)]
pub proof fn lemma_mini_record_dispositions(r: ElectionRecord)
    requires
        is_mini_record(r),
        mini_trackers_distinct(r.segments@[0]),
    ensures
        dispositions::dispositions_status(r) == StatusView::Pass,
{
    let t = r.transcript->0;
    let s = r.segments@[0];
    assert(mini_transcript(t, r.config, s));
    assert(mini_disposition(r.dispositions@[0], r.config, s));
    assert(mini_segment(s, r.config.election_hash@));
    assert forall|v: int| 0 <= v < 3 implies (#[trigger] t.input_trackers@[v])@
        == r.segments@[0].entries@[v].entry_hash@ by {
    }
    lemma_mini_dispositions_pass(r, t);
}

/// The dispositions check passes on a record whose board, disposition and
/// transcript input are those of the mini election.
proof fn lemma_mini_dispositions_pass(r: ElectionRecord, t: TallyTranscript)
    requires
        r.transcript == Some(t),
        r.segments@.len() == 1,
        mini_entries(r.segments@[0].entries@),
        mini_trackers_distinct(r.segments@[0]),
        r.dispositions@.len() == 1,
        r.dispositions@[0].subject@ == r.segments@[0].entries@[3].entry_hash@,
        r.dispositions@[0].decision == DispositionDecision::SpoiledByCheck,
        t.input_trackers@.len() == 3,
        forall|v: int|
            0 <= v < 3 ==> (#[trigger] t.input_trackers@[v])@ == r.segments@[0].entries@[v].entry_hash@,
    ensures
        dispositions::dispositions_status(r) == StatusView::Pass,
{
    lemma_mini_validity(r);
    lemma_mini_completeness(r, t);
    assert(dispositions::validity_problems(r) + dispositions::completeness_problems(r, t)
        =~= Seq::<Seq<char>>::empty());
}

/// Seven passes and a skip give the overall outcome `Partial`.
proof fn lemma_partial_of(rs: Seq<(Seq<char>, StatusView)>)
    requires
        rs.len() == 8,
        forall|i: int| 0 <= i < 7 ==> (#[trigger] rs[i]).1 is Pass,
        rs[7].1 is Skipped,
    ensures
        report::spec_overall(rs) == Overall::Partial,
{
    assert forall|i: int| 0 <= i < rs.len() implies !((#[trigger] rs[i]).1 is Fail) by {
        if i < 7 {
        }
    }
}

/// The mini election record passes every implemented check: the first
/// seven checks pass and the staged proof check is skipped, so the overall
/// outcome is `Partial`, never `Pass`. This holds whatever keys the record
/// was built with, provided its four submission trackers are distinct
/// (each is the SHA3-256 of a different input; only a collision could
/// break it).
pub proof fn lemma_mini_record_verifies(r: ElectionRecord)
    requires
        is_mini_record(r),
        mini_trackers_distinct(r.segments@[0]),
    ensures
        forall|i: int| 0 <= i < 7 ==> #[trigger] crate::checks::check_statuses(r)[i] == StatusView::Pass,
        crate::checks::check_statuses(r)[7] is Skipped,
        report::spec_overall(crate::record_results(r)) == Overall::Partial,
{
    let st = crate::checks::check_statuses(r);
    assert(st[0] == StatusView::Pass) by {
        lemma_mini_record_structure(r);
    }
    assert(st[1] == StatusView::Pass) by {
        lemma_mini_record_chain(r);
    }
    assert(st[2] == StatusView::Pass) by {
        lemma_mini_record_attestations(r);
    }
    assert(st[3] == StatusView::Pass) by {
        lemma_mini_record_signatures(r);
    }
    assert(st[4] == StatusView::Pass) by {
        lemma_mini_record_dispositions(r);
    }
    assert(st[5] == StatusView::Pass) by {
        lemma_mini_record_accounting(r);
    }
    assert(st[6] == StatusView::Pass) by {
        lemma_mini_record_reconciliation(r);
    }
    assert forall|i: int| 0 <= i < 7 implies #[trigger] st[i] == StatusView::Pass by {
        if i == 0 {
        } else if i == 1 {
        } else if i == 2 {
        } else if i == 3 {
        } else if i == 4 {
        } else if i == 5 {
        } else {
        }
    }
    let rs = crate::record_results(r);
    assert forall|i: int| 0 <= i < 7 implies (#[trigger] rs[i]).1 is Pass by {
        assert(rs[i].1 == st[i]);
    }
    assert(rs[7].1 == st[7]);
    lemma_partial_of(rs);
}

} // verus!
