//! Signature verification over the schema's canonical signing inputs:
//! trustee endorsements on the configuration, DBB signatures on segments
//! and attestations, authority signatures on dispositions, tabulator
//! signatures on reports, trustee signatures on the transcript.

use super::labels::{self, attestation_label_of, disposition_label_of, report_label_of, segment_label_of};
use crate::attestation::ChainHeadAttestation;
use crate::board::BoardSegment;
use crate::bytes::Bytes;
use crate::config::{ElectionConfigRecord, NamedSignature, TrusteePublic};
use crate::crypto::{self, verify_signature, SignatureFailure};
use crate::disposition::DispositionRecord;
use crate::record::ElectionRecord;
use crate::seqs::{self, push_text, texts};
use crate::tabulator::TabulatorReport;
use crate::transcript::TallyTranscript;
use crate::text::{self, push_debug, push_dec, push_str};
use vstd::prelude::*;

verus! {

/// The index of the last roster member before position `j` named `name`.
pub open spec fn last_member_before(ms: Seq<TrusteePublic>, name: Seq<char>, j: int) -> Option<int>
    decreases j,
{
    if j <= 0 {
        None
    } else if ms[j - 1].name@ == name {
        Some(j - 1)
    } else {
        last_member_before(ms, name, j - 1)
    }
}

/// The verifying key a name resolves to: the last authority of that name,
/// else the last trustee of that name.
pub open spec fn named_key(c: ElectionConfigRecord, name: Seq<char>) -> Option<Seq<u8>> {
    match last_member_before(c.authorities@, name, c.authorities@.len() as int) {
        Some(i) => Some(c.authorities@[i].verifying_key@),
        None => match last_member_before(c.trustees@, name, c.trustees@.len() as int) {
            Some(i) => Some(c.trustees@[i].verifying_key@),
            None => None,
        },
    }
}

/// The text that ends a finding for each way a signature can fail.
pub open spec fn failure_text(f: SignatureFailure) -> Seq<char> {
    match f {
        SignatureFailure::MalformedKey => ": malformed verifying key"@,
        SignatureFailure::MalformedSignature => ": malformed signature"@,
        SignatureFailure::VerificationFailed => ": signature verification failed"@,
    }
}

/// The finding, if any, for a signature checked in `context`.
pub open spec fn sig_problem(context: Seq<char>, key: Seq<u8>, message: Seq<u8>, signature: Seq<u8>) -> Seq<
    Seq<char>,
> {
    match crypto::spec_signature_failure(key, message, signature) {
        None => Seq::empty(),
        Some(f) => seq![context + failure_text(f)],
    }
}

/// The findings for one configuration endorsement.
pub open spec fn endorsement_problems(c: ElectionConfigRecord, s: NamedSignature) -> Seq<Seq<char>> {
    match named_key(c, s.signer@) {
        None => seq!["config: endorsement by unknown signer "@ + text::debug_text(s.signer@)],
        Some(k) => sig_problem(
            "config endorsement by "@ + s.signer@,
            k,
            c.spec_signing_input(),
            s.signature@,
        ),
    }
}

/// Whether some endorsement is by `name`.
pub open spec fn has_endorsed(c: ElectionConfigRecord, name: Seq<char>) -> bool {
    exists|i: int| 0 <= i < c.signatures@.len() && (#[trigger] c.signatures@[i]).signer@ == name
}

/// A trustee who has not endorsed the configuration.
pub open spec fn missing_endorsement(c: ElectionConfigRecord, t: TrusteePublic) -> Seq<Seq<char>> {
    if has_endorsed(c, t.name@) {
        Seq::empty()
    } else {
        seq!["config: trustee "@ + text::debug_text(t.name@) + " has not endorsed"@]
    }
}

/// The findings for one disposition signature.
pub open spec fn disposition_sig_problems(
    c: ElectionConfigRecord,
    d: DispositionRecord,
    s: NamedSignature,
) -> Seq<Seq<char>> {
    match named_key(c, s.signer@) {
        None => seq![
            labels::disposition_label(d) + ": unknown signer "@ + text::debug_text(s.signer@),
        ],
        Some(k) => sig_problem(
            labels::disposition_label(d) + " by "@ + s.signer@,
            k,
            d.spec_signing_input(),
            s.signature@,
        ),
    }
}

/// The findings for one disposition record.
pub open spec fn disposition_problems(c: ElectionConfigRecord, d: DispositionRecord) -> Seq<
    Seq<char>,
> {
    (if d.signatures@.len() == 0 {
        seq![labels::disposition_label(d) + ": no signatures"@]
    } else {
        Seq::empty()
    }) + seqs::flat_map(
        d.signatures@,
        |s: NamedSignature| disposition_sig_problems(c, d, s),
    )
}

/// The findings for one transcript signature.
pub open spec fn transcript_sig_problems(
    c: ElectionConfigRecord,
    t: TallyTranscript,
    s: NamedSignature,
) -> Seq<Seq<char>> {
    match named_key(c, s.signer@) {
        None => seq!["transcript: unknown signer "@ + text::debug_text(s.signer@)],
        Some(k) => sig_problem(
            "transcript signature by "@ + s.signer@,
            k,
            t.spec_signing_input(),
            s.signature@,
        ),
    }
}

/// Whether `name` is the name of one of the configuration's trustees.
pub open spec fn is_trustee(c: ElectionConfigRecord, name: Seq<char>) -> bool {
    last_member_before(c.trustees@, name, c.trustees@.len() as int) is Some
}

/// The names of the transcript signers that are trustees, in order: only
/// these count toward the trustees' threshold.
pub open spec fn trustee_signers(c: ElectionConfigRecord, t: TallyTranscript) -> Seq<Seq<char>> {
    seqs::flat_map(
        t.trustee_signatures@,
        |s: NamedSignature|
            if is_trustee(c, s.signer@) {
                seq![s.signer@]
            } else {
                Seq::empty()
            },
    )
}

/// The number of distinct elements of `s`.
pub open spec fn distinct_count(s: Seq<Seq<char>>) -> nat
    decreases s.len(),
{
    if s.len() == 0 {
        0
    } else {
        distinct_count(s.drop_last()) + if s.drop_last().contains(s.last()) {
            0nat
        } else {
            1nat
        }
    }
}

/// The quorum count is the number of distinct names: it is the size of the
/// set of names, so it never exceeds that set, and a repeated name adds
/// nothing.
pub proof fn lemma_distinct_count_is_set_size(s: Seq<Seq<char>>)
    ensures
        distinct_count(s) == s.to_set().len(),
        s.to_set().finite(),
    decreases s.len(),
{
    broadcast use vstd::seq_lib::seq_to_set_is_finite;
    if s.len() == 0 {
        assert(s.to_set() =~= Set::<Seq<char>>::empty());
    } else {
        let p = s.drop_last();
        lemma_distinct_count_is_set_size(p);
        assert(s.to_set() =~= p.to_set().insert(s.last())) by {
            assert forall|x: Seq<char>| s.to_set().contains(x) implies p.to_set().insert(
                s.last(),
            ).contains(x) by {
                let j = choose|j: int| 0 <= j < s.len() && s[j] == x;
                if j < s.len() - 1 {
                    assert(p[j] == x);
                }
            }
            assert forall|x: Seq<char>| p.to_set().insert(s.last()).contains(x) implies s.to_set().contains(
                x,
            ) by {
                if x != s.last() {
                    let j = choose|j: int| 0 <= j < p.len() && p[j] == x;
                    assert(s[j] == x);
                } else {
                    assert(s[s.len() - 1] == x);
                }
            }
        }
        vstd::set::axiom_set_insert_len(p.to_set(), s.last());
        assert(p.contains(s.last()) == p.to_set().contains(s.last()));
    }
}

/// Repeating a transcript signature entry never changes the quorum count:
/// the count of distinct trustee signers of a transcript whose signatures
/// are those of another transcript plus a copy of one of them is the same.
pub proof fn lemma_repeated_signature_keeps_quorum(
    c: ElectionConfigRecord,
    t1: TallyTranscript,
    t2: TallyTranscript,
    i: int,
)
    requires
        0 <= i < t1.trustee_signatures@.len(),
        t2.trustee_signatures@ == t1.trustee_signatures@.push(t1.trustee_signatures@[i]),
    ensures
        distinct_count(trustee_signers(c, t2)) == distinct_count(trustee_signers(c, t1)),
{
    let f = |s: NamedSignature|
        if is_trustee(c, s.signer@) {
            seq![s.signer@]
        } else {
            Seq::empty()
        };
    let a = trustee_signers(c, t1);
    let b = trustee_signers(c, t2);
    let sg = t2.trustee_signatures@;
    let x = t1.trustee_signatures@[i];
    assert(sg.drop_last() =~= t1.trustee_signatures@);
    assert(sg.last() == x);
    assert(b == a + f(x));
    lemma_distinct_count_is_set_size(a);
    lemma_distinct_count_is_set_size(b);
    if is_trustee(c, x.signer@) {
        assert(f(x).len() == 1);
        seqs::lemma_flat_map_step(t1.trustee_signatures@, f, i);
        assert(seqs::flat_map(t1.trustee_signatures@.take(i + 1), f).contains(x.signer@)) by {
            let pre = seqs::flat_map(t1.trustee_signatures@.take(i), f);
            assert(seqs::flat_map(t1.trustee_signatures@.take(i + 1), f)[pre.len() as int] == x.signer@);
        }
        lemma_flat_map_prefix_contains(t1.trustee_signatures@, f, i + 1, x.signer@);
        assert(a.contains(x.signer@));
        assert(b.to_set() =~= a.to_set()) by {
            assert forall|y: Seq<char>| b.to_set().contains(y) implies a.to_set().contains(y) by {
                let j = choose|j: int| 0 <= j < b.len() && b[j] == y;
                if j < a.len() {
                    assert(a[j] == y);
                } else {
                    assert(y == x.signer@);
                }
            }
            assert forall|y: Seq<char>| a.to_set().contains(y) implies b.to_set().contains(y) by {
                let j = choose|j: int| 0 <= j < a.len() && a[j] == y;
                assert(b[j] == y);
            }
        }
    } else {
        assert(b =~= a);
    }
}

/// What a prefix of a `flat_map` holds, the whole holds too.
proof fn lemma_flat_map_prefix_contains(
    s: Seq<NamedSignature>,
    f: spec_fn(NamedSignature) -> Seq<Seq<char>>,
    n: int,
    y: Seq<char>,
)
    requires
        0 <= n <= s.len(),
        seqs::flat_map(s.take(n), f).contains(y),
    ensures
        seqs::flat_map(s, f).contains(y),
    decreases s.len() - n,
{
    if n == s.len() {
        assert(s.take(n) =~= s);
    } else {
        seqs::lemma_flat_map_step(s, f, n);
        let pre = seqs::flat_map(s.take(n), f);
        let j = choose|j: int| 0 <= j < pre.len() && pre[j] == y;
        assert((pre + f(s[n]))[j] == y);
        lemma_flat_map_prefix_contains(s, f, n + 1, y);
    }
}

/// The transcript findings: each signature, then a quorum of distinct
/// trustee signers below the threshold.
pub open spec fn transcript_problems(c: ElectionConfigRecord, t: TallyTranscript) -> Seq<Seq<char>> {
    let n = distinct_count(trustee_signers(c, t));
    seqs::flat_map(
        t.trustee_signatures@,
        |s: NamedSignature| transcript_sig_problems(c, t, s),
    ) + if n < c.threshold {
        seq![
            "transcript: "@ + text::dec_text(n) + " distinct trustee signatures, below threshold "@
                + text::dec_text(c.threshold as nat),
        ]
    } else {
        Seq::empty()
    }
}

/// Everything the signature check reports, in order: configuration
/// endorsements, unendorsed trustees, segments, attestations, dispositions,
/// tabulator reports, transcript.
pub open spec fn signature_problems(r: ElectionRecord) -> Seq<Seq<char>> {
    let c = r.config;
    seqs::flat_map(c.signatures@, |s: NamedSignature| endorsement_problems(c, s)) + seqs::flat_map(
        c.trustees@,
        |t: TrusteePublic| missing_endorsement(c, t),
    ) + seqs::flat_map(
        r.segments@,
        |s: BoardSegment|
            sig_problem(
                labels::segment_label(s),
                s.dbb_verifying_key@,
                s.spec_signing_input(),
                s.signature@,
            ),
    ) + seqs::flat_map(
        r.attestations@,
        |a: ChainHeadAttestation|
            sig_problem(
                labels::attestation_label(a),
                a.dbb_verifying_key@,
                a.spec_signing_input(),
                a.signature@,
            ),
    ) + seqs::flat_map(r.dispositions@, |d: DispositionRecord| disposition_problems(c, d))
        + seqs::flat_map(
        r.tabulator_reports@,
        |t: TabulatorReport|
            sig_problem(
                labels::report_label(t),
                t.tab_verifying_key@,
                t.spec_signing_input(),
                t.signature@,
            ),
    ) + match r.transcript {
        Some(t) => transcript_problems(c, t),
        None => Seq::empty(),
    }
}

fn last_member_index(ms: &Vec<TrusteePublic>, name: &String) -> (res: Option<usize>)
    ensures
        match res {
            Some(i) => i < ms@.len() && last_member_before(ms@, name@, ms@.len() as int) == Some(
                i as int,
            ),
            None => last_member_before(ms@, name@, ms@.len() as int) is None,
        },
{
    let mut k = ms.len();
    while k > 0
        invariant
            k <= ms@.len(),
            last_member_before(ms@, name@, ms@.len() as int) == last_member_before(
                ms@,
                name@,
                k as int,
            ),
        decreases k,
    {
        if ms[k - 1].name == *name {
            return Some(k - 1);
        }
        k = k - 1;
    }
    None
}

fn key_of<'a>(c: &'a ElectionConfigRecord, name: &String) -> (res: Option<&'a Bytes>)
    ensures
        match res {
            Some(k) => named_key(*c, name@) == Some(k@),
            None => named_key(*c, name@) is None,
        },
{
    match last_member_index(&c.authorities, name) {
        Some(i) => Some(&c.authorities[i].verifying_key),
        None => match last_member_index(&c.trustees, name) {
            Some(i) => Some(&c.trustees[i].verifying_key),
            None => None,
        },
    }
}

fn check_sig(ps: &mut Vec<String>, context: String, key: &[u8], message: &[u8], signature: &[u8])
    ensures
        texts(final(ps)@) == texts(old(ps)@) + sig_problem(context@, key@, message@, signature@),
{
    match verify_signature(key, message, signature) {
        None => {
            assert(texts(final(ps)@) =~= texts(old(ps)@) + sig_problem(
                context@,
                key@,
                message@,
                signature@,
            ));
        },
        Some(f) => {
            let mut m = context;
            match f {
                SignatureFailure::MalformedKey => push_str(&mut m, ": malformed verifying key"),
                SignatureFailure::MalformedSignature => push_str(&mut m, ": malformed signature"),
                SignatureFailure::VerificationFailed => push_str(
                    &mut m,
                    ": signature verification failed",
                ),
            }
            push_text(ps, m);
        },
    }
}

fn check_endorsements(ps: &mut Vec<String>, c: &ElectionConfigRecord)
    ensures
        texts(final(ps)@) == texts(old(ps)@) + seqs::flat_map(
            c.signatures@,
            |s: NamedSignature| endorsement_problems(*c, s),
        ) + seqs::flat_map(c.trustees@, |t: TrusteePublic| missing_endorsement(*c, t)),
{
    let input = c.signing_input();
    let ghost b = texts(ps@);
    let ghost f = |s: NamedSignature| endorsement_problems(*c, s);
    let n = c.signatures.len();
    let mut i: usize = 0;
    while i < n
        invariant
            n == c.signatures@.len(),
            input@ == c.spec_signing_input(),
            f == (|s: NamedSignature| endorsement_problems(*c, s)),
            i <= n,
            texts(ps@) == b + seqs::flat_map(c.signatures@.take(i as int), f),
        decreases n - i,
    {
        let s = &c.signatures[i];
        match key_of(c, &s.signer) {
            None => {
                let mut m = String::new();
                push_str(&mut m, "config: endorsement by unknown signer ");
                push_debug(&mut m, s.signer.as_str());
                push_text(ps, m);
            },
            Some(k) => {
                let mut ctx = String::new();
                push_str(&mut ctx, "config endorsement by ");
                push_str(&mut ctx, s.signer.as_str());
                check_sig(ps, ctx, k.as_slice(), input.as_slice(), s.signature.as_slice());
            },
        }
        proof {
            seqs::lemma_flat_map_step(c.signatures@, f, i as int);
        }
        assert(texts(ps@) =~= b + seqs::flat_map(c.signatures@.take(i + 1), f));
        i = i + 1;
    }
    proof {
        seqs::lemma_flat_map_all(c.signatures@, f);
    }
    let ghost b2 = texts(ps@);
    let ghost g = |t: TrusteePublic| missing_endorsement(*c, t);
    let n = c.trustees.len();
    let mut i: usize = 0;
    while i < n
        invariant
            n == c.trustees@.len(),
            g == (|t: TrusteePublic| missing_endorsement(*c, t)),
            i <= n,
            texts(ps@) == b2 + seqs::flat_map(c.trustees@.take(i as int), g),
        decreases n - i,
    {
        let t = &c.trustees[i];
        let m = c.signatures.len();
        let mut found = false;
        let mut j: usize = 0;
        while j < m
            invariant
                m == c.signatures@.len(),
                j <= m,
                found == exists|k: int| 0 <= k < j && (#[trigger] c.signatures@[k]).signer@ == t.name@,
            decreases m - j,
        {
            if c.signatures[j].signer == t.name {
                found = true;
            }
            j = j + 1;
        }
        if !found {
            let mut msg = String::new();
            push_str(&mut msg, "config: trustee ");
            push_debug(&mut msg, t.name.as_str());
            push_str(&mut msg, " has not endorsed");
            push_text(ps, msg);
        }
        proof {
            seqs::lemma_flat_map_step(c.trustees@, g, i as int);
        }
        assert(texts(ps@) =~= b2 + seqs::flat_map(c.trustees@.take(i + 1), g));
        i = i + 1;
    }
    proof {
        seqs::lemma_flat_map_all(c.trustees@, g);
    }
}

fn check_device_sigs(ps: &mut Vec<String>, r: &ElectionRecord)
    ensures
        texts(final(ps)@) == texts(old(ps)@) + seqs::flat_map(
            r.segments@,
            |s: BoardSegment|
                sig_problem(
                    labels::segment_label(s),
                    s.dbb_verifying_key@,
                    s.spec_signing_input(),
                    s.signature@,
                ),
        ) + seqs::flat_map(
            r.attestations@,
            |a: ChainHeadAttestation|
                sig_problem(
                    labels::attestation_label(a),
                    a.dbb_verifying_key@,
                    a.spec_signing_input(),
                    a.signature@,
                ),
        ),
{
    let ghost b = texts(ps@);
    let ghost f = |s: BoardSegment|
        sig_problem(
            labels::segment_label(s),
            s.dbb_verifying_key@,
            s.spec_signing_input(),
            s.signature@,
        );
    let n = r.segments.len();
    let mut i: usize = 0;
    while i < n
        invariant
            n == r.segments@.len(),
            f == (|s: BoardSegment|
                sig_problem(
                    labels::segment_label(s),
                    s.dbb_verifying_key@,
                    s.spec_signing_input(),
                    s.signature@,
                )),
            i <= n,
            texts(ps@) == b + seqs::flat_map(r.segments@.take(i as int), f),
        decreases n - i,
    {
        let s = &r.segments[i];
        let input = s.signing_input();
        check_sig(
            ps,
            segment_label_of(s),
            s.dbb_verifying_key.as_slice(),
            input.as_slice(),
            s.signature.as_slice(),
        );
        proof {
            seqs::lemma_flat_map_step(r.segments@, f, i as int);
        }
        assert(texts(ps@) =~= b + seqs::flat_map(r.segments@.take(i + 1), f));
        i = i + 1;
    }
    proof {
        seqs::lemma_flat_map_all(r.segments@, f);
    }
    let ghost b2 = texts(ps@);
    let ghost g = |a: ChainHeadAttestation|
        sig_problem(
            labels::attestation_label(a),
            a.dbb_verifying_key@,
            a.spec_signing_input(),
            a.signature@,
        );
    let n = r.attestations.len();
    let mut i: usize = 0;
    while i < n
        invariant
            n == r.attestations@.len(),
            g == (|a: ChainHeadAttestation|
                sig_problem(
                    labels::attestation_label(a),
                    a.dbb_verifying_key@,
                    a.spec_signing_input(),
                    a.signature@,
                )),
            i <= n,
            texts(ps@) == b2 + seqs::flat_map(r.attestations@.take(i as int), g),
        decreases n - i,
    {
        let a = &r.attestations[i];
        let input = a.signing_input();
        check_sig(
            ps,
            attestation_label_of(a),
            a.dbb_verifying_key.as_slice(),
            input.as_slice(),
            a.signature.as_slice(),
        );
        proof {
            seqs::lemma_flat_map_step(r.attestations@, g, i as int);
        }
        assert(texts(ps@) =~= b2 + seqs::flat_map(r.attestations@.take(i + 1), g));
        i = i + 1;
    }
    proof {
        seqs::lemma_flat_map_all(r.attestations@, g);
    }
}

fn check_disposition(ps: &mut Vec<String>, c: &ElectionConfigRecord, d: &DispositionRecord)
    ensures
        texts(final(ps)@) == texts(old(ps)@) + disposition_problems(*c, *d),
{
    let ghost b = texts(ps@);
    if d.signatures.len() == 0 {
        let mut m = disposition_label_of(d);
        push_str(&mut m, ": no signatures");
        push_text(ps, m);
    }
    let ghost b1 = texts(ps@);
    let input = d.signing_input();
    let ghost f = |s: NamedSignature| disposition_sig_problems(*c, *d, s);
    let n = d.signatures.len();
    let mut i: usize = 0;
    while i < n
        invariant
            n == d.signatures@.len(),
            input@ == d.spec_signing_input(),
            f == (|s: NamedSignature| disposition_sig_problems(*c, *d, s)),
            i <= n,
            texts(ps@) == b1 + seqs::flat_map(d.signatures@.take(i as int), f),
        decreases n - i,
    {
        let s = &d.signatures[i];
        match key_of(c, &s.signer) {
            None => {
                let mut m = disposition_label_of(d);
                push_str(&mut m, ": unknown signer ");
                push_debug(&mut m, s.signer.as_str());
                push_text(ps, m);
            },
            Some(k) => {
                let mut ctx = disposition_label_of(d);
                push_str(&mut ctx, " by ");
                push_str(&mut ctx, s.signer.as_str());
                check_sig(ps, ctx, k.as_slice(), input.as_slice(), s.signature.as_slice());
            },
        }
        proof {
            seqs::lemma_flat_map_step(d.signatures@, f, i as int);
        }
        assert(texts(ps@) =~= b1 + seqs::flat_map(d.signatures@.take(i + 1), f));
        i = i + 1;
    }
    proof {
        seqs::lemma_flat_map_all(d.signatures@, f);
    }
    assert(texts(ps@) =~= b + disposition_problems(*c, *d));
}

fn check_dispositions_and_reports(ps: &mut Vec<String>, r: &ElectionRecord)
    ensures
        texts(final(ps)@) == texts(old(ps)@) + seqs::flat_map(
            r.dispositions@,
            |d: DispositionRecord| disposition_problems(r.config, d),
        ) + seqs::flat_map(
            r.tabulator_reports@,
            |t: TabulatorReport|
                sig_problem(
                    labels::report_label(t),
                    t.tab_verifying_key@,
                    t.spec_signing_input(),
                    t.signature@,
                ),
        ),
{
    let ghost b = texts(ps@);
    let ghost f = |d: DispositionRecord| disposition_problems(r.config, d);
    let n = r.dispositions.len();
    let mut i: usize = 0;
    while i < n
        invariant
            n == r.dispositions@.len(),
            f == (|d: DispositionRecord| disposition_problems(r.config, d)),
            i <= n,
            texts(ps@) == b + seqs::flat_map(r.dispositions@.take(i as int), f),
        decreases n - i,
    {
        check_disposition(ps, &r.config, &r.dispositions[i]);
        proof {
            seqs::lemma_flat_map_step(r.dispositions@, f, i as int);
        }
        assert(texts(ps@) =~= b + seqs::flat_map(r.dispositions@.take(i + 1), f));
        i = i + 1;
    }
    proof {
        seqs::lemma_flat_map_all(r.dispositions@, f);
    }
    let ghost b2 = texts(ps@);
    let ghost g = |t: TabulatorReport|
        sig_problem(
            labels::report_label(t),
            t.tab_verifying_key@,
            t.spec_signing_input(),
            t.signature@,
        );
    let n = r.tabulator_reports.len();
    let mut i: usize = 0;
    while i < n
        invariant
            n == r.tabulator_reports@.len(),
            g == (|t: TabulatorReport|
                sig_problem(
                    labels::report_label(t),
                    t.tab_verifying_key@,
                    t.spec_signing_input(),
                    t.signature@,
                )),
            i <= n,
            texts(ps@) == b2 + seqs::flat_map(r.tabulator_reports@.take(i as int), g),
        decreases n - i,
    {
        let t = &r.tabulator_reports[i];
        let input = t.signing_input();
        check_sig(
            ps,
            report_label_of(t),
            t.tab_verifying_key.as_slice(),
            input.as_slice(),
            t.signature.as_slice(),
        );
        proof {
            seqs::lemma_flat_map_step(r.tabulator_reports@, g, i as int);
        }
        assert(texts(ps@) =~= b2 + seqs::flat_map(r.tabulator_reports@.take(i + 1), g));
        i = i + 1;
    }
    proof {
        seqs::lemma_flat_map_all(r.tabulator_reports@, g);
    }
}

fn contains_name(v: &Vec<String>, name: &String) -> (b: bool)
    ensures
        b == texts(v@).contains(name@),
{
    let n = v.len();
    let mut i: usize = 0;
    while i < n
        invariant
            n == v@.len(),
            i <= n,
            forall|j: int| 0 <= j < i ==> (#[trigger] v@[j])@ != name@,
        decreases n - i,
    {
        if v[i] == *name {
            assert(texts(v@)[i as int] == name@);
            return true;
        }
        i = i + 1;
    }
    assert forall|j: int| 0 <= j < texts(v@).len() implies #[trigger] texts(v@)[j] != name@ by {
        assert(texts(v@)[j] == v@[j]@);
    }
    false
}

fn check_transcript(ps: &mut Vec<String>, c: &ElectionConfigRecord, t: &TallyTranscript)
    ensures
        texts(final(ps)@) == texts(old(ps)@) + transcript_problems(*c, *t),
{
    let ghost b = texts(ps@);
    let input = t.signing_input();
    let ghost f = |s: NamedSignature| transcript_sig_problems(*c, *t, s);
    let ghost g = |s: NamedSignature|
        if is_trustee(*c, s.signer@) {
            seq![s.signer@]
        } else {
            Seq::empty()
        };
    let mut seen: Vec<String> = Vec::new();
    let mut distinct: usize = 0;
    let n = t.trustee_signatures.len();
    let mut i: usize = 0;
    assert(texts(seen@) =~= seqs::flat_map(t.trustee_signatures@.take(0), g));
    while i < n
        invariant
            n == t.trustee_signatures@.len(),
            input@ == t.spec_signing_input(),
            f == (|s: NamedSignature| transcript_sig_problems(*c, *t, s)),
            g == (|s: NamedSignature|
                if is_trustee(*c, s.signer@) {
                    seq![s.signer@]
                } else {
                    Seq::empty()
                }),
            i <= n,
            texts(ps@) == b + seqs::flat_map(t.trustee_signatures@.take(i as int), f),
            texts(seen@) == seqs::flat_map(t.trustee_signatures@.take(i as int), g),
            distinct as nat == distinct_count(texts(seen@)),
            distinct <= seen@.len() <= i,
        decreases n - i,
    {
        let s = &t.trustee_signatures[i];
        let ghost seen_before = texts(seen@);
        match key_of(c, &s.signer) {
            None => {
                let mut m = String::new();
                push_str(&mut m, "transcript: unknown signer ");
                push_debug(&mut m, s.signer.as_str());
                push_text(ps, m);
                assert(texts(seen@) =~= seen_before + g(t.trustee_signatures@[i as int]));
            },
            Some(k) => {
                let mut ctx = String::new();
                push_str(&mut ctx, "transcript signature by ");
                push_str(&mut ctx, s.signer.as_str());
                check_sig(ps, ctx, k.as_slice(), input.as_slice(), s.signature.as_slice());
                if last_member_index(&c.trustees, &s.signer).is_some() {
                    let already = contains_name(&seen, &s.signer);
                    push_text(&mut seen, s.signer.clone());
                    if !already {
                        distinct = distinct + 1;
                    }
                    assert(texts(seen@).drop_last() =~= seen_before);
                }
                assert(texts(seen@) =~= seen_before + g(t.trustee_signatures@[i as int]));
            },
        }
        proof {
            seqs::lemma_flat_map_step(t.trustee_signatures@, f, i as int);
            seqs::lemma_flat_map_step(t.trustee_signatures@, g, i as int);
        }
        assert(texts(ps@) =~= b + seqs::flat_map(t.trustee_signatures@.take(i + 1), f));
        i = i + 1;
    }
    proof {
        seqs::lemma_flat_map_all(t.trustee_signatures@, f);
        seqs::lemma_flat_map_all(t.trustee_signatures@, g);
    }
    if distinct < c.threshold as usize {
        let mut m = String::new();
        push_str(&mut m, "transcript: ");
        push_dec(&mut m, distinct as u64);
        push_str(&mut m, " distinct trustee signatures, below threshold ");
        push_dec(&mut m, c.threshold as u64);
        push_text(ps, m);
    }
    assert(texts(ps@) =~= b + transcript_problems(*c, *t));
}

/// Runs the signature check and returns its findings, in order.
pub fn signature_findings(r: &ElectionRecord) -> (ps: Vec<String>)
    ensures
        texts(ps@) == signature_problems(*r),
{
    let mut ps: Vec<String> = Vec::new();
    assert(texts(ps@) =~= Seq::<Seq<char>>::empty());
    check_endorsements(&mut ps, &r.config);
    check_device_sigs(&mut ps, r);
    check_dispositions_and_reports(&mut ps, r);
    match &r.transcript {
        Some(t) => check_transcript(&mut ps, &r.config, t),
        None => {},
    }
    assert(texts(ps@) =~= signature_problems(*r));
    ps
}

} // verus!
