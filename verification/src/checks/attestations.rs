//! Attestation consistency: every attestation matches a published segment,
//! its head equals the segment head, and its counts recount from the
//! entries; every segment is attested.

use super::labels::{self, attestation_label_of, segment_label_of};
use crate::attestation::{ChainHeadAttestation, SiteCounts};
use crate::board::{BoardSegment, BulletinEntry, BulletinKind};
use crate::bytes::bytes_eq;
use crate::record::ElectionRecord;
use crate::seqs::{self, push_text, texts};
use crate::text::{self, push_dec, push_hex, push_str};
use vstd::prelude::*;

verus! {

/// The index of the last segment before position `j` published for `site`
/// and `day`.
pub open spec fn last_segment_before(
    segs: Seq<BoardSegment>,
    site: Seq<char>,
    day: Seq<char>,
    j: int,
) -> Option<int>
    decreases j,
{
    if j <= 0 {
        None
    } else if segs[j - 1].site_id@ == site && segs[j - 1].day@ == day {
        Some(j - 1)
    } else {
        last_segment_before(segs, site, day, j - 1)
    }
}

/// Submission entries.
pub open spec fn is_submission(e: BulletinEntry) -> bool {
    e.kind is Submission
}

/// Non-provisional cast entries.
pub open spec fn is_regular_cast(e: BulletinEntry) -> bool {
    e.kind is Cast && !e.flags.provisional
}

/// Provisional cast entries.
pub open spec fn is_provisional_cast(e: BulletinEntry) -> bool {
    e.kind is Cast && e.flags.provisional
}

/// Spoil entries.
pub open spec fn is_spoil(e: BulletinEntry) -> bool {
    e.kind is Spoil
}

/// The counts recounted from a segment's entries: submissions, regular
/// casts, spoils, provisional casts.
pub open spec fn recount(s: BoardSegment) -> (nat, nat, nat, nat) {
    (
        seqs::count_where(s.entries@, |e: BulletinEntry| is_submission(e)),
        seqs::count_where(s.entries@, |e: BulletinEntry| is_regular_cast(e)),
        seqs::count_where(s.entries@, |e: BulletinEntry| is_spoil(e)),
        seqs::count_where(s.entries@, |e: BulletinEntry| is_provisional_cast(e)),
    )
}

/// The counts an attestation states.
pub open spec fn attested(c: SiteCounts) -> (nat, nat, nat, nat) {
    (c.submitted as nat, c.cast as nat, c.spoiled as nat, c.provisional_pending as nat)
}

/// The Debug rendering of a 4-tuple of counts: `(a, b, c, d)`.
pub open spec fn tuple4_text(t: (nat, nat, nat, nat)) -> Seq<char> {
    "("@ + text::dec_text(t.0) + ", "@ + text::dec_text(t.1) + ", "@ + text::dec_text(t.2) + ", "@
        + text::dec_text(t.3) + ")"@
}

/// The findings for one attestation.
pub open spec fn attestation_problems(segs: Seq<BoardSegment>, a: ChainHeadAttestation) -> Seq<
    Seq<char>,
> {
    let att = labels::attestation_label(a);
    match last_segment_before(segs, a.site_id@, a.day@, segs.len() as int) {
        None => seq![att + ": no matching board segment was published"@],
        Some(i) => (if a.head@ != segs[i].segment_head@ {
            seq![
                att + ": attested head "@ + text::hex_text(a.head@)
                    + " differs from the published segment head "@ + text::hex_text(
                    segs[i].segment_head@,
                ),
            ]
        } else {
            Seq::empty()
        }) + (if attested(a.counts) != recount(segs[i]) {
            seq![
                att + ": counts "@ + tuple4_text(attested(a.counts))
                    + " differ from the segment's entries "@ + tuple4_text(recount(segs[i]))
                    + " (submitted, cast, spoiled, provisional-pending)"@,
            ]
        } else {
            Seq::empty()
        }),
    }
}

/// Whether some attestation names this site and day.
pub open spec fn is_attested(atts: Seq<ChainHeadAttestation>, s: BoardSegment) -> bool {
    exists|i: int|
        0 <= i < atts.len() && (#[trigger] atts[i]).site_id@ == s.site_id@ && atts[i].day@
            == s.day@
}

/// A segment no attestation covers.
pub open spec fn unattested_problem(atts: Seq<ChainHeadAttestation>, s: BoardSegment) -> Seq<
    Seq<char>,
> {
    if is_attested(atts, s) {
        Seq::empty()
    } else {
        seq![labels::segment_label(s) + ": no chain-head attestation was published"@]
    }
}

/// Everything the attestation check reports: each attestation in order,
/// then each unattested segment in order.
pub open spec fn attestation_check_problems(r: ElectionRecord) -> Seq<Seq<char>> {
    seqs::flat_map(
        r.attestations@,
        |a: ChainHeadAttestation| attestation_problems(r.segments@, a),
    ) + seqs::flat_map(r.segments@, |s: BoardSegment| unattested_problem(r.attestations@, s))
}

/// The recounted casts and provisional-pending counts partition the
/// segment's cast entries: together they count every cast exactly once; a
/// segment without provisional entries has nothing pending, and one whose
/// casts are all provisional has no regular cast.
pub proof fn lemma_recount_partitions_casts(s: BoardSegment)
    ensures
        recount(s).1 + recount(s).3 == seqs::count_where(s.entries@, |e: BulletinEntry| e.kind is Cast),
        (forall|i: int| 0 <= i < s.entries@.len() ==> !(#[trigger] s.entries@[i]).flags.provisional)
            ==> recount(s).3 == 0,
        (forall|i: int|
            0 <= i < s.entries@.len() && (#[trigger] s.entries@[i]).kind is Cast
                ==> s.entries@[i].flags.provisional) ==> recount(s).1 == 0,
{
    let es = s.entries@;
    let p = |e: BulletinEntry| is_regular_cast(e);
    let q = |e: BulletinEntry| is_provisional_cast(e);
    let u = |e: BulletinEntry| e.kind is Cast;
    seqs::lemma_count_where_split(es, p, q, u);
    if forall|i: int| 0 <= i < es.len() ==> !(#[trigger] es[i]).flags.provisional {
        assert forall|i: int| 0 <= i < es.len() implies !q(#[trigger] es[i]) by {}
        seqs::lemma_count_where_none(es, q);
    }
    if forall|i: int|
        0 <= i < es.len() && (#[trigger] es[i]).kind is Cast ==> es[i].flags.provisional {
        assert forall|i: int| 0 <= i < es.len() implies !p(#[trigger] es[i]) by {
            if es[i].kind is Cast {
            }
        }
        seqs::lemma_count_where_none(es, p);
    }
}

fn last_segment_index(segs: &Vec<BoardSegment>, site: &String, day: &String) -> (res: Option<usize>)
    ensures
        match res {
            Some(i) => i < segs@.len() && last_segment_before(
                segs@,
                site@,
                day@,
                segs@.len() as int,
            ) == Some(i as int),
            None => last_segment_before(segs@, site@, day@, segs@.len() as int) is None,
        },
{
    let mut k = segs.len();
    while k > 0
        invariant
            k <= segs@.len(),
            last_segment_before(segs@, site@, day@, segs@.len() as int) == last_segment_before(
                segs@,
                site@,
                day@,
                k as int,
            ),
        decreases k,
    {
        if segs[k - 1].site_id == *site && segs[k - 1].day == *day {
            return Some(k - 1);
        }
        k = k - 1;
    }
    None
}

pub fn recount_entries(s: &BoardSegment) -> (c: (u64, u64, u64, u64))
    ensures
        (c.0 as nat, c.1 as nat, c.2 as nat, c.3 as nat) == recount(*s),
{
    let es = &s.entries;
    let ghost fs = |e: BulletinEntry| is_submission(e);
    let ghost fc = |e: BulletinEntry| is_regular_cast(e);
    let ghost fp = |e: BulletinEntry| is_spoil(e);
    let ghost fv = |e: BulletinEntry| is_provisional_cast(e);
    let n = es.len();
    let mut submitted: u64 = 0;
    let mut cast: u64 = 0;
    let mut spoiled: u64 = 0;
    let mut pending: u64 = 0;
    let mut i: usize = 0;
    while i < n
        invariant
            n == es@.len(),
            es == &s.entries,
            fs == (|e: BulletinEntry| is_submission(e)),
            fc == (|e: BulletinEntry| is_regular_cast(e)),
            fp == (|e: BulletinEntry| is_spoil(e)),
            fv == (|e: BulletinEntry| is_provisional_cast(e)),
            i <= n,
            submitted as nat == seqs::count_where(es@.take(i as int), fs),
            cast as nat == seqs::count_where(es@.take(i as int), fc),
            spoiled as nat == seqs::count_where(es@.take(i as int), fp),
            pending as nat == seqs::count_where(es@.take(i as int), fv),
        decreases n - i,
    {
        proof {
            seqs::lemma_count_where_step(es@, fs, i as int);
            seqs::lemma_count_where_step(es@, fc, i as int);
            seqs::lemma_count_where_step(es@, fp, i as int);
            seqs::lemma_count_where_step(es@, fv, i as int);
        }
        let e = &es[i];
        match e.kind {
            BulletinKind::Submission => submitted = submitted + 1,
            BulletinKind::Cast => {
                if e.flags.provisional {
                    pending = pending + 1;
                } else {
                    cast = cast + 1;
                }
            },
            BulletinKind::Spoil => spoiled = spoiled + 1,
            BulletinKind::VoterAuthorization => {},
        }
        i = i + 1;
    }
    assert(es@.take(n as int) =~= es@);
    (submitted, cast, spoiled, pending)
}

fn push_tuple4(m: &mut String, t: (u64, u64, u64, u64))
    ensures
        final(m)@ == old(m)@ + tuple4_text((t.0 as nat, t.1 as nat, t.2 as nat, t.3 as nat)),
{
    push_str(m, "(");
    push_dec(m, t.0);
    push_str(m, ", ");
    push_dec(m, t.1);
    push_str(m, ", ");
    push_dec(m, t.2);
    push_str(m, ", ");
    push_dec(m, t.3);
    push_str(m, ")");
}

fn check_attestation(ps: &mut Vec<String>, segs: &Vec<BoardSegment>, a: &ChainHeadAttestation)
    ensures
        texts(final(ps)@) == texts(old(ps)@) + attestation_problems(segs@, *a),
{
    match last_segment_index(segs, &a.site_id, &a.day) {
        None => {
            let mut m = attestation_label_of(a);
            push_str(&mut m, ": no matching board segment was published");
            push_text(ps, m);
        },
        Some(i) => {
            let seg = &segs[i];
            if !bytes_eq(a.head.as_slice(), seg.segment_head.as_slice()) {
                let mut m = attestation_label_of(a);
                push_str(&mut m, ": attested head ");
                push_hex(&mut m, a.head.as_slice());
                push_str(&mut m, " differs from the published segment head ");
                push_hex(&mut m, seg.segment_head.as_slice());
                push_text(ps, m);
            }
            let expected = recount_entries(seg);
            let att = (
                a.counts.submitted,
                a.counts.cast,
                a.counts.spoiled,
                a.counts.provisional_pending,
            );
            if att.0 != expected.0 || att.1 != expected.1 || att.2 != expected.2 || att.3
                != expected.3 {
                let mut m = attestation_label_of(a);
                push_str(&mut m, ": counts ");
                push_tuple4(&mut m, att);
                push_str(&mut m, " differ from the segment's entries ");
                push_tuple4(&mut m, expected);
                push_str(&mut m, " (submitted, cast, spoiled, provisional-pending)");
                push_text(ps, m);
            }
        },
    }
    assert(texts(final(ps)@) =~= texts(old(ps)@) + attestation_problems(segs@, *a));
}

fn attested_somewhere(atts: &Vec<ChainHeadAttestation>, s: &BoardSegment) -> (b: bool)
    ensures
        b == is_attested(atts@, *s),
{
    let n = atts.len();
    let mut i: usize = 0;
    while i < n
        invariant
            n == atts@.len(),
            i <= n,
            forall|j: int|
                0 <= j < i ==> !((#[trigger] atts@[j]).site_id@ == s.site_id@ && atts@[j].day@
                    == s.day@),
        decreases n - i,
    {
        if atts[i].site_id == s.site_id && atts[i].day == s.day {
            return true;
        }
        i = i + 1;
    }
    false
}

/// Runs the attestation check and returns its findings, in order.
pub fn attestation_findings(r: &ElectionRecord) -> (ps: Vec<String>)
    ensures
        texts(ps@) == attestation_check_problems(*r),
{
    let mut ps: Vec<String> = Vec::new();
    let ghost f = |a: ChainHeadAttestation| attestation_problems(r.segments@, a);
    assert(texts(ps@) =~= seqs::flat_map(r.attestations@.take(0), f));
    let n = r.attestations.len();
    let mut i: usize = 0;
    while i < n
        invariant
            n == r.attestations@.len(),
            f == (|a: ChainHeadAttestation| attestation_problems(r.segments@, a)),
            i <= n,
            texts(ps@) == seqs::flat_map(r.attestations@.take(i as int), f),
        decreases n - i,
    {
        check_attestation(&mut ps, &r.segments, &r.attestations[i]);
        proof {
            seqs::lemma_flat_map_step(r.attestations@, f, i as int);
        }
        assert(texts(ps@) =~= seqs::flat_map(r.attestations@.take(i + 1), f));
        i = i + 1;
    }
    proof {
        seqs::lemma_flat_map_all(r.attestations@, f);
    }
    let ghost b = texts(ps@);
    let ghost g = |s: BoardSegment| unattested_problem(r.attestations@, s);
    let n = r.segments.len();
    let mut i: usize = 0;
    while i < n
        invariant
            n == r.segments@.len(),
            g == (|s: BoardSegment| unattested_problem(r.attestations@, s)),
            i <= n,
            texts(ps@) == b + seqs::flat_map(r.segments@.take(i as int), g),
        decreases n - i,
    {
        let s = &r.segments[i];
        if !attested_somewhere(&r.attestations, s) {
            let mut m = segment_label_of(s);
            push_str(&mut m, ": no chain-head attestation was published");
            push_text(&mut ps, m);
        }
        proof {
            seqs::lemma_flat_map_step(r.segments@, g, i as int);
        }
        assert(texts(ps@) =~= b + seqs::flat_map(r.segments@.take(i + 1), g));
        i = i + 1;
    }
    proof {
        seqs::lemma_flat_map_all(r.segments@, g);
    }
    ps
}

} // verus!
