//! Disposition arithmetic and mix-input completeness: casts and spoils
//! reference real submissions, dispositions reference real subjects of the
//! right kind, and, once the transcript is published, its input set equals
//! the cast cryptograms adjusted by the signed dispositions, exactly.

use super::labels::{self, disposition_label_of};
use crate::board::{BoardSegment, BulletinEntry, BulletinKind};
use crate::bytes::bytes_eq;
use crate::disposition::{DispositionDecision, DispositionRecord};
use crate::keys::{self, bytes_key_of, key_bytes_of, sort_keys};
use crate::record::ElectionRecord;
use crate::report::{self, CheckStatus, StatusView};
use crate::seqs::{self, push_text, texts};
use crate::text::{self, push_hex, push_str};
use crate::transcript::TallyTranscript;
use vstd::prelude::*;

verus! {

/// Every board entry of the record, segment by segment, in board order.
pub open spec fn all_entries(segs: Seq<BoardSegment>) -> Seq<BulletinEntry> {
    seqs::flat_map(segs, |s: BoardSegment| s.entries@)
}

/// A submission whose tracker (entry hash) is `h`.
pub open spec fn is_submission_with(e: BulletinEntry, h: Seq<u8>) -> bool {
    e.kind is Submission && e.entry_hash@ == h
}

/// A cast of the submission `subj`.
pub open spec fn is_cast_of(e: BulletinEntry, subj: Seq<u8>) -> bool {
    e.kind is Cast && e.subject@ == subj
}

/// A spoil of the submission `subj`.
pub open spec fn is_spoil_of(e: BulletinEntry, subj: Seq<u8>) -> bool {
    e.kind is Spoil && e.subject@ == subj
}

/// Whether some submission has tracker `h`.
pub open spec fn has_submission(es: Seq<BulletinEntry>, h: Seq<u8>) -> bool {
    exists|k: int| 0 <= k < es.len() && is_submission_with(#[trigger] es[k], h)
}

/// Whether some spoil entry names `subj`.
pub open spec fn has_spoil(es: Seq<BulletinEntry>, subj: Seq<u8>) -> bool {
    exists|k: int| 0 <= k < es.len() && is_spoil_of(#[trigger] es[k], subj)
}

/// The position of the last cast of `subj` before position `n`.
pub open spec fn last_cast_before(es: Seq<BulletinEntry>, subj: Seq<u8>, n: int) -> Option<int>
    decreases n,
{
    if n <= 0 {
        None
    } else if is_cast_of(es[n - 1], subj) {
        Some(n - 1)
    } else {
        last_cast_before(es, subj, n - 1)
    }
}

/// The position of the latest cast of `subj`.
pub open spec fn latest_cast(es: Seq<BulletinEntry>, subj: Seq<u8>) -> Option<int> {
    last_cast_before(es, subj, es.len() as int)
}

/// The keys of the subjects of every cast, in board order.
pub open spec fn cast_keys(es: Seq<BulletinEntry>) -> Seq<Seq<u64>> {
    seqs::flat_map(
        es,
        |e: BulletinEntry|
            if e.kind is Cast {
                seq![keys::bytes_key(e.subject@)]
            } else {
                Seq::empty()
            },
    )
}

/// The keys of the subjects of every spoil, in board order.
pub open spec fn spoil_keys(es: Seq<BulletinEntry>) -> Seq<Seq<u64>> {
    seqs::flat_map(
        es,
        |e: BulletinEntry|
            if e.kind is Spoil {
                seq![keys::bytes_key(e.subject@)]
            } else {
                Seq::empty()
            },
    )
}

/// A cast at position `k` of a submission already cast earlier.
pub open spec fn double_cast_problem(es: Seq<BulletinEntry>, k: int) -> Seq<Seq<char>> {
    if es[k].kind is Cast && last_cast_before(es, es[k].subject@, k) is Some {
        seq![
            "board: submission "@ + text::hex_text(es[k].subject@) + " is cast more than once"@,
        ]
    } else {
        Seq::empty()
    }
}

/// A spoiled subject that is also cast.
pub open spec fn cast_and_spoiled_problem(es: Seq<BulletinEntry>, k: Seq<u64>) -> Seq<Seq<char>> {
    let b = keys::key_bytes(k);
    if latest_cast(es, b) is Some {
        seq!["board: submission "@ + text::hex_text(b) + " is both cast and spoiled"@]
    } else {
        Seq::empty()
    }
}

/// A cast of a subject that is not a submission.
pub open spec fn unknown_cast_problem(es: Seq<BulletinEntry>, k: Seq<u64>) -> Seq<Seq<char>> {
    let b = keys::key_bytes(k);
    if !has_submission(es, b) {
        seq!["board: cast of unknown submission "@ + text::hex_text(b)]
    } else {
        Seq::empty()
    }
}

/// A spoil of a subject that is not a submission.
pub open spec fn unknown_spoil_problem(es: Seq<BulletinEntry>, k: Seq<u64>) -> Seq<Seq<char>> {
    let b = keys::key_bytes(k);
    if !has_submission(es, b) {
        seq!["board: spoil of unknown submission "@ + text::hex_text(b)]
    } else {
        Seq::empty()
    }
}

/// Decisions about provisional cryptograms.
pub open spec fn is_provisional_decision(d: DispositionDecision) -> bool {
    d is IncludeProvisional || d is ExcludeProvisional
}

/// A disposition that records a provisional decision: its subject is a
/// submission and its decision is provisional.
pub open spec fn records_provisional(es: Seq<BulletinEntry>, d: DispositionRecord) -> bool {
    has_submission(es, d.subject@) && is_provisional_decision(d.decision)
}

/// The position of the last disposition before position `i` that records a
/// provisional decision about `subj`.
pub open spec fn last_provisional_before(
    es: Seq<BulletinEntry>,
    ds: Seq<DispositionRecord>,
    subj: Seq<u8>,
    i: int,
) -> Option<int>
    decreases i,
{
    if i <= 0 {
        None
    } else if records_provisional(es, ds[i - 1]) && ds[i - 1].subject@ == subj {
        Some(i - 1)
    } else {
        last_provisional_before(es, ds, subj, i - 1)
    }
}

/// The findings for the disposition at position `i`.
pub open spec fn disposition_problems(r: ElectionRecord, i: int) -> Seq<Seq<char>> {
    let es = all_entries(r.segments@);
    let ds = r.dispositions@;
    let d = ds[i];
    let subj = d.subject@;
    let label = labels::disposition_label(d);
    if !has_submission(es, subj) {
        seq![label + ": subject is not a published submission"@]
    } else {
        match d.decision {
            DispositionDecision::IncludeProvisional | DispositionDecision::ExcludeProvisional => (
            if !(latest_cast(es, subj) matches Some(c) && es[c].flags.provisional) {
                seq![
                    label
                        + ": provisional decision for a subject that is not a provisional cast"@,
                ]
            } else {
                Seq::empty()
            }) + (if last_provisional_before(es, ds, subj, i) is Some {
                seq![label + ": multiple provisional decisions for one subject"@]
            } else {
                Seq::empty()
            }),
            DispositionDecision::ExcludeTest => if !(latest_cast(es, subj) matches Some(c)
                && es[c].flags.test) {
                seq![label + ": test exclusion for a non-test subject"@]
            } else {
                Seq::empty()
            },
            DispositionDecision::SpoiledByCheck | DispositionDecision::VoidMisprint => if !has_spoil(
                es,
                subj,
            ) {
                seq![label + ": spoil/void decision without a matching board spoil entry"@]
            } else {
                Seq::empty()
            },
        }
    }
}

/// The validity findings, in order: repeated casts (board order), subjects
/// both cast and spoiled, casts and spoils of unknown submissions (each in
/// subject order), then each disposition.
pub open spec fn validity_problems(r: ElectionRecord) -> Seq<Seq<char>> {
    let es = all_entries(r.segments@);
    let casts = keys::sorted_keys(cast_keys(es));
    let spoils = keys::sorted_keys(spoil_keys(es));
    seqs::flat_range(es.len() as int, |k: int| double_cast_problem(es, k)) + seqs::flat_map(
        spoils,
        |k: Seq<u64>| cast_and_spoiled_problem(es, k),
    ) + seqs::flat_map(casts, |k: Seq<u64>| unknown_cast_problem(es, k)) + seqs::flat_map(
        spoils,
        |k: Seq<u64>| unknown_spoil_problem(es, k),
    ) + seqs::flat_range(r.dispositions@.len() as int, |i: int| disposition_problems(r, i))
}

/// The final provisional decision about `subj`: that of the last
/// disposition recording one.
pub open spec fn final_decision(r: ElectionRecord, subj: Seq<u8>) -> Option<DispositionDecision> {
    let es = all_entries(r.segments@);
    match last_provisional_before(es, r.dispositions@, subj, r.dispositions@.len() as int) {
        Some(j) => Some(r.dispositions@[j].decision),
        None => None,
    }
}

/// Whether a cast enters the mix: test casts never, provisional casts when
/// finally included, all others always.
pub open spec fn included(r: ElectionRecord, e: BulletinEntry) -> bool {
    if e.flags.test {
        false
    } else if e.flags.provisional {
        final_decision(r, e.subject@) == Some(DispositionDecision::IncludeProvisional)
    } else {
        true
    }
}

/// Whether `subj` belongs to the expected mix input: its latest cast is
/// included.
pub open spec fn expected_input(r: ElectionRecord, subj: Seq<u8>) -> bool {
    let es = all_entries(r.segments@);
    match latest_cast(es, subj) {
        Some(c) => included(r, es[c]),
        None => false,
    }
}

/// Whether `b` is one of the transcript's input trackers.
pub open spec fn is_input(t: TallyTranscript, b: Seq<u8>) -> bool {
    exists|i: int| 0 <= i < t.input_trackers@.len() && (#[trigger] t.input_trackers@[i])@ == b
}

/// Whether two input trackers are equal.
pub open spec fn has_duplicate_inputs(t: TallyTranscript) -> bool {
    exists|i: int, j: int|
        0 <= i < j < t.input_trackers@.len() && (#[trigger] t.input_trackers@[i])@
            == (#[trigger] t.input_trackers@[j])@
}

/// The keys of the transcript's input trackers, in order.
pub open spec fn input_keys(t: TallyTranscript) -> Seq<Seq<u64>> {
    t.input_trackers@.map_values(|b: crate::bytes::Bytes| keys::bytes_key(b@))
}

/// A provisional cast with no provisional decision.
pub open spec fn undecided_problem(r: ElectionRecord, k: Seq<u64>) -> Seq<Seq<char>> {
    let es = all_entries(r.segments@);
    let b = keys::key_bytes(k);
    if latest_cast(es, b) matches Some(c) && es[c].flags.provisional && final_decision(r, b) is None {
        seq![
            "mix-input: provisional cast "@ + text::hex_text(b)
                + " has no disposition but the transcript is published"@,
        ]
    } else {
        Seq::empty()
    }
}

/// An expected input missing from the transcript.
pub open spec fn missing_problem(r: ElectionRecord, t: TallyTranscript, k: Seq<u64>) -> Seq<
    Seq<char>,
> {
    let b = keys::key_bytes(k);
    if expected_input(r, b) && !is_input(t, b) {
        seq![
            "mix-input: cast cryptogram "@ + text::hex_text(b)
                + " is missing from the transcript input"@,
        ]
    } else {
        Seq::empty()
    }
}

/// A transcript input that is not expected.
pub open spec fn extra_problem(r: ElectionRecord, k: Seq<u64>) -> Seq<Seq<char>> {
    let b = keys::key_bytes(k);
    if !expected_input(r, b) {
        seq![
            "mix-input: transcript input "@ + text::hex_text(b)
                + " is not a validly included cast cryptogram"@,
        ]
    } else {
        Seq::empty()
    }
}

/// The mix-input completeness findings, in order: undecided provisional
/// casts, duplicate trackers, missing inputs, unexpected inputs.
pub open spec fn completeness_problems(r: ElectionRecord, t: TallyTranscript) -> Seq<Seq<char>> {
    let es = all_entries(r.segments@);
    let casts = keys::sorted_keys(cast_keys(es));
    seqs::flat_map(casts, |k: Seq<u64>| undecided_problem(r, k)) + (if has_duplicate_inputs(t) {
        seq!["transcript: duplicate input trackers"@]
    } else {
        Seq::empty()
    }) + seqs::flat_map(casts, |k: Seq<u64>| missing_problem(r, t, k)) + seqs::flat_map(
        keys::sorted_keys(input_keys(t)),
        |k: Seq<u64>| extra_problem(r, k),
    )
}

/// Why a clean record without a transcript is only a skip.
pub open spec fn deferred_reason() -> Seq<char> {
    "disposition validity passed; mix-input completeness deferred until a transcript is published"@
}

/// The outcome of the dispositions check: without a transcript, validity
/// failures fail and a clean result is a skip; with one, the validity and
/// completeness findings together decide.
pub open spec fn dispositions_status(r: ElectionRecord) -> StatusView {
    match r.transcript {
        None => if validity_problems(r).len() == 0 {
            StatusView::Skipped(deferred_reason())
        } else {
            StatusView::Fail(validity_problems(r))
        },
        Some(t) => report::status_of(validity_problems(r) + completeness_problems(r, t)),
    }
}

/// A provisional cast enters the mix exactly when its final provisional
/// decision is to include it: one whose final decision is an exclusion (or
/// that has no decision) is never expected in the transcript input, so its
/// absence is never a finding and its presence always is.
pub proof fn lemma_provisional_expected_iff_included(r: ElectionRecord, t: TallyTranscript, b: Seq<u8>, c: int)
    requires
        latest_cast(all_entries(r.segments@), b) == Some(c),
        all_entries(r.segments@)[c].flags.provisional,
        !all_entries(r.segments@)[c].flags.test,
    ensures
        expected_input(r, b) <==> final_decision(r, b) == Some(DispositionDecision::IncludeProvisional),
        final_decision(r, b) != Some(DispositionDecision::IncludeProvisional) ==> missing_problem(
            r,
            t,
            keys::bytes_key(b),
        ).len() == 0 && extra_problem(r, keys::bytes_key(b)).len() == 1,
{
    let es = all_entries(r.segments@);
    lemma_latest_cast_subject(es, b, es.len() as int);
    keys::lemma_key_bytes_of_bytes_key(b);
}

/// The cast that `last_cast_before` finds is a cast of the subject asked
/// for, before the position given.
proof fn lemma_latest_cast_subject(es: Seq<BulletinEntry>, subj: Seq<u8>, n: int)
    ensures
        last_cast_before(es, subj, n) matches Some(c) ==> 0 <= c < n && is_cast_of(es[c], subj),
    decreases n,
{
    if n > 0 {
        lemma_latest_cast_subject(es, subj, n - 1);
    }
}

/// A regular cast (neither provisional nor a test) always enters the mix.
pub proof fn lemma_regular_cast_expected(r: ElectionRecord, b: Seq<u8>, c: int)
    requires
        latest_cast(all_entries(r.segments@), b) == Some(c),
        !all_entries(r.segments@)[c].flags.provisional,
        !all_entries(r.segments@)[c].flags.test,
    ensures
        expected_input(r, b),
{
}

/// A transcript whose inputs are exactly the expected ones (the regular
/// casts and the finally included provisional casts) has no missing and no
/// unexpected input.
pub proof fn lemma_exact_inputs_no_mix_finding(r: ElectionRecord, t: TallyTranscript)
    requires
        forall|b: Seq<u8>| #[trigger] is_input(t, b) <==> expected_input(r, b),
    ensures
        forall|k: Seq<u64>| #[trigger] missing_problem(r, t, k).len() == 0,
        forall|i: int|
            0 <= i < input_keys(t).len() ==> #[trigger] extra_problem(r, input_keys(t)[i]).len() == 0,
{
    assert forall|k: Seq<u64>| #[trigger] missing_problem(r, t, k).len() == 0 by {
        let b = keys::key_bytes(k);
        assert(is_input(t, b) <==> expected_input(r, b));
    }
    assert forall|i: int|
        0 <= i < input_keys(t).len() implies #[trigger] extra_problem(r, input_keys(t)[i]).len() == 0 by {
        let b = t.input_trackers@[i]@;
        keys::lemma_key_bytes_of_bytes_key(b);
        assert(is_input(t, b));
    }
}

/// Where each entry of `all_entries` stands: (segment, entry) positions.
pub open spec fn positions_ok(segs: Seq<BoardSegment>, pos: Seq<(usize, usize)>) -> bool {
    &&& pos.len() == all_entries(segs).len()
    &&& forall|k: int|
        0 <= k < pos.len() ==> (#[trigger] pos[k]).0 < segs.len() && pos[k].1 < segs[pos[k].0 as int].entries@.len()
            && segs[pos[k].0 as int].entries@[pos[k].1 as int] == all_entries(segs)[k]
}

fn entry_positions(segs: &Vec<BoardSegment>) -> (pos: Vec<(usize, usize)>)
    ensures
        positions_ok(segs@, pos@),
{
    let ghost f = |s: BoardSegment| s.entries@;
    let mut pos: Vec<(usize, usize)> = Vec::new();
    let n = segs.len();
    let mut i: usize = 0;
    while i < n
        invariant
            n == segs@.len(),
            f == (|s: BoardSegment| s.entries@),
            i <= n,
            pos@.len() == seqs::flat_map(segs@.take(i as int), f).len(),
            forall|k: int|
                0 <= k < pos@.len() ==> (#[trigger] pos@[k]).0 < segs@.len() && pos@[k].1
                    < segs@[pos@[k].0 as int].entries@.len() && segs@[pos@[k].0 as int].entries@[pos@[k].1 as int]
                    == seqs::flat_map(segs@.take(i as int), f)[k],
        decreases n - i,
    {
        let ghost pre = seqs::flat_map(segs@.take(i as int), f);
        let es = &segs[i].entries;
        let m = es.len();
        let mut j: usize = 0;
        while j < m
            invariant
                n == segs@.len(),
                i < n,
                es == &segs@[i as int].entries,
                m == es@.len(),
                j <= m,
                pos@.len() == pre.len() + j,
                forall|k: int|
                    0 <= k < pos@.len() ==> (#[trigger] pos@[k]).0 < segs@.len() && pos@[k].1
                        < segs@[pos@[k].0 as int].entries@.len() && segs@[pos@[k].0 as int].entries@[pos@[k].1 as int]
                        == (pre + es@.take(j as int))[k],
            decreases m - j,
        {
            pos.push((i, j));
            assert forall|k: int| 0 <= k < pos@.len() implies (#[trigger] pos@[k]).0 < segs@.len()
                && pos@[k].1 < segs@[pos@[k].0 as int].entries@.len()
                && segs@[pos@[k].0 as int].entries@[pos@[k].1 as int] == (pre + es@.take(j + 1))[k] by {
                if k < pos@.len() - 1 {
                    assert((pre + es@.take(j + 1))[k] == (pre + es@.take(j as int))[k]);
                }
            }
            j = j + 1;
        }
        proof {
            seqs::lemma_flat_map_step(segs@, f, i as int);
            assert(es@.take(m as int) =~= es@);
        }
        i = i + 1;
    }
    proof {
        seqs::lemma_flat_map_all(segs@, f);
    }
    pos
}

fn has_submission_exec(segs: &Vec<BoardSegment>, pos: &Vec<(usize, usize)>, h: &[u8]) -> (b: bool)
    requires
        positions_ok(segs@, pos@),
    ensures
        b == has_submission(all_entries(segs@), h@),
{
    let ghost es = all_entries(segs@);
    let n = pos.len();
    let mut k: usize = 0;
    while k < n
        invariant
            positions_ok(segs@, pos@),
            es == all_entries(segs@),
            n == pos@.len(),
            k <= n,
            forall|j: int| 0 <= j < k ==> !is_submission_with(#[trigger] es[j], h@),
        decreases n - k,
    {
        let (a, b) = pos[k];
        let e = &segs[a].entries[b];
        assert(*e == es[k as int]);
        match e.kind {
            BulletinKind::Submission => {
                if bytes_eq(e.entry_hash.as_slice(), h) {
                    return true;
                }
            },
            _ => {},
        }
        k = k + 1;
    }
    false
}

fn has_spoil_exec(segs: &Vec<BoardSegment>, pos: &Vec<(usize, usize)>, subj: &[u8]) -> (b: bool)
    requires
        positions_ok(segs@, pos@),
    ensures
        b == has_spoil(all_entries(segs@), subj@),
{
    let ghost es = all_entries(segs@);
    let n = pos.len();
    let mut k: usize = 0;
    while k < n
        invariant
            positions_ok(segs@, pos@),
            es == all_entries(segs@),
            n == pos@.len(),
            k <= n,
            forall|j: int| 0 <= j < k ==> !is_spoil_of(#[trigger] es[j], subj@),
        decreases n - k,
    {
        let (a, b) = pos[k];
        let e = &segs[a].entries[b];
        assert(*e == es[k as int]);
        match e.kind {
            BulletinKind::Spoil => {
                if bytes_eq(e.subject.as_slice(), subj) {
                    return true;
                }
            },
            _ => {},
        }
        k = k + 1;
    }
    false
}

fn last_cast_exec(segs: &Vec<BoardSegment>, pos: &Vec<(usize, usize)>, subj: &[u8], n: usize) -> (res:
    Option<usize>)
    requires
        positions_ok(segs@, pos@),
        n <= pos@.len(),
    ensures
        match res {
            Some(c) => c < n && last_cast_before(all_entries(segs@), subj@, n as int) == Some(
                c as int,
            ) && is_cast_of(all_entries(segs@)[c as int], subj@),
            None => last_cast_before(all_entries(segs@), subj@, n as int) is None,
        },
{
    let ghost es = all_entries(segs@);
    let mut k = n;
    while k > 0
        invariant
            positions_ok(segs@, pos@),
            es == all_entries(segs@),
            k <= n <= pos@.len(),
            last_cast_before(es, subj@, n as int) == last_cast_before(es, subj@, k as int),
        decreases k,
    {
        let (a, b) = pos[k - 1];
        let e = &segs[a].entries[b];
        assert(*e == es[k - 1]);
        match e.kind {
            BulletinKind::Cast => {
                if bytes_eq(e.subject.as_slice(), subj) {
                    return Some(k - 1);
                }
            },
            _ => {},
        }
        k = k - 1;
    }
    None
}

/// Board-order pass: repeated casts, and the subject keys of casts and
/// spoils.
fn board_pass(ps: &mut Vec<String>, segs: &Vec<BoardSegment>, pos: &Vec<(usize, usize)>) -> (res: (
    Vec<Vec<u64>>,
    Vec<Vec<u64>>,
))
    requires
        positions_ok(segs@, pos@),
    ensures
        texts(final(ps)@) == texts(old(ps)@) + seqs::flat_range(
            all_entries(segs@).len() as int,
            |k: int| double_cast_problem(all_entries(segs@), k),
        ),
        keys::keys_view(res.0@) == cast_keys(all_entries(segs@)),
        keys::keys_view(res.1@) == spoil_keys(all_entries(segs@)),
{
    let ghost es = all_entries(segs@);
    let ghost b = texts(ps@);
    let ghost f = |k: int| double_cast_problem(es, k);
    let ghost fc = |e: BulletinEntry|
        if e.kind is Cast {
            seq![keys::bytes_key(e.subject@)]
        } else {
            Seq::<Seq<u64>>::empty()
        };
    let ghost fs = |e: BulletinEntry|
        if e.kind is Spoil {
            seq![keys::bytes_key(e.subject@)]
        } else {
            Seq::<Seq<u64>>::empty()
        };
    let mut casts: Vec<Vec<u64>> = Vec::new();
    let mut spoils: Vec<Vec<u64>> = Vec::new();
    let n = pos.len();
    let mut k: usize = 0;
    assert(keys::keys_view(casts@) =~= seqs::flat_map(es.take(0), fc));
    assert(keys::keys_view(spoils@) =~= seqs::flat_map(es.take(0), fs));
    while k < n
        invariant
            positions_ok(segs@, pos@),
            es == all_entries(segs@),
            n == pos@.len(),
            f == (|k: int| double_cast_problem(es, k)),
            fc == (|e: BulletinEntry|
                if e.kind is Cast {
                    seq![keys::bytes_key(e.subject@)]
                } else {
                    Seq::<Seq<u64>>::empty()
                }),
            fs == (|e: BulletinEntry|
                if e.kind is Spoil {
                    seq![keys::bytes_key(e.subject@)]
                } else {
                    Seq::<Seq<u64>>::empty()
                }),
            k <= n,
            texts(ps@) == b + seqs::flat_range(k as int, f),
            keys::keys_view(casts@) == seqs::flat_map(es.take(k as int), fc),
            keys::keys_view(spoils@) == seqs::flat_map(es.take(k as int), fs),
        decreases n - k,
    {
        let (a, c) = pos[k];
        let e = &segs[a].entries[c];
        assert(*e == es[k as int]);
        let ghost cv = keys::keys_view(casts@);
        let ghost sv = keys::keys_view(spoils@);
        match e.kind {
            BulletinKind::Cast => {
                match last_cast_exec(segs, pos, e.subject.as_slice(), k) {
                    Some(_) => {
                        let mut m = String::new();
                        push_str(&mut m, "board: submission ");
                        push_hex(&mut m, e.subject.as_slice());
                        push_str(&mut m, " is cast more than once");
                        push_text(ps, m);
                    },
                    None => {},
                }
                let key = bytes_key_of(e.subject.as_slice());
                let ghost kv = key@;
                casts.push(key);
                assert(keys::keys_view(casts@) =~= cv.push(kv));
                assert(keys::keys_view(spoils@) =~= sv);
            },
            BulletinKind::Spoil => {
                let key = bytes_key_of(e.subject.as_slice());
                let ghost kv = key@;
                spoils.push(key);
                assert(keys::keys_view(spoils@) =~= sv.push(kv));
                assert(keys::keys_view(casts@) =~= cv);
            },
            _ => {
                assert(keys::keys_view(casts@) =~= cv);
                assert(keys::keys_view(spoils@) =~= sv);
            },
        }
        proof {
            seqs::lemma_flat_map_step(es, fc, k as int);
            seqs::lemma_flat_map_step(es, fs, k as int);
        }
        assert(keys::keys_view(casts@) =~= seqs::flat_map(es.take(k + 1), fc));
        assert(keys::keys_view(spoils@) =~= seqs::flat_map(es.take(k + 1), fs));
        assert(texts(ps@) =~= b + seqs::flat_range(k + 1, f));
        k = k + 1;
    }
    proof {
        seqs::lemma_flat_map_all(es, fc);
        seqs::lemma_flat_map_all(es, fs);
    }
    (casts, spoils)
}

/// Subject-order passes over the spoiled and cast subjects.
fn subject_pass(
    ps: &mut Vec<String>,
    segs: &Vec<BoardSegment>,
    pos: &Vec<(usize, usize)>,
    casts: &Vec<Vec<u64>>,
    spoils: &Vec<Vec<u64>>,
)
    requires
        positions_ok(segs@, pos@),
    ensures
        texts(final(ps)@) == texts(old(ps)@) + seqs::flat_map(
            keys::keys_view(spoils@),
            |k: Seq<u64>| cast_and_spoiled_problem(all_entries(segs@), k),
        ) + seqs::flat_map(
            keys::keys_view(casts@),
            |k: Seq<u64>| unknown_cast_problem(all_entries(segs@), k),
        ) + seqs::flat_map(
            keys::keys_view(spoils@),
            |k: Seq<u64>| unknown_spoil_problem(all_entries(segs@), k),
        ),
{
    let ghost es = all_entries(segs@);
    let ghost sv = keys::keys_view(spoils@);
    let ghost cv = keys::keys_view(casts@);
    let ghost b = texts(ps@);
    let ghost f = |k: Seq<u64>| cast_and_spoiled_problem(es, k);
    let n = spoils.len();
    let mut i: usize = 0;
    while i < n
        invariant
            positions_ok(segs@, pos@),
            es == all_entries(segs@),
            sv == keys::keys_view(spoils@),
            n == spoils@.len(),
            f == (|k: Seq<u64>| cast_and_spoiled_problem(es, k)),
            i <= n,
            texts(ps@) == b + seqs::flat_map(sv.take(i as int), f),
        decreases n - i,
    {
        let subj = key_bytes_of(spoils[i].as_slice());
        assert(sv[i as int] == spoils@[i as int]@);
        if last_cast_exec(segs, pos, subj.as_slice(), pos.len()).is_some() {
            let mut m = String::new();
            push_str(&mut m, "board: submission ");
            push_hex(&mut m, subj.as_slice());
            push_str(&mut m, " is both cast and spoiled");
            push_text(ps, m);
        }
        proof {
            seqs::lemma_flat_map_step(sv, f, i as int);
        }
        assert(texts(ps@) =~= b + seqs::flat_map(sv.take(i + 1), f));
        i = i + 1;
    }
    proof {
        seqs::lemma_flat_map_all(sv, f);
    }
    let ghost b = texts(ps@);
    let ghost f = |k: Seq<u64>| unknown_cast_problem(es, k);
    let n = casts.len();
    let mut i: usize = 0;
    while i < n
        invariant
            positions_ok(segs@, pos@),
            es == all_entries(segs@),
            cv == keys::keys_view(casts@),
            n == casts@.len(),
            f == (|k: Seq<u64>| unknown_cast_problem(es, k)),
            i <= n,
            texts(ps@) == b + seqs::flat_map(cv.take(i as int), f),
        decreases n - i,
    {
        let subj = key_bytes_of(casts[i].as_slice());
        assert(cv[i as int] == casts@[i as int]@);
        if !has_submission_exec(segs, pos, subj.as_slice()) {
            let mut m = String::new();
            push_str(&mut m, "board: cast of unknown submission ");
            push_hex(&mut m, subj.as_slice());
            push_text(ps, m);
        }
        proof {
            seqs::lemma_flat_map_step(cv, f, i as int);
        }
        assert(texts(ps@) =~= b + seqs::flat_map(cv.take(i + 1), f));
        i = i + 1;
    }
    proof {
        seqs::lemma_flat_map_all(cv, f);
    }
    let ghost b = texts(ps@);
    let ghost f = |k: Seq<u64>| unknown_spoil_problem(es, k);
    let n = spoils.len();
    let mut i: usize = 0;
    while i < n
        invariant
            positions_ok(segs@, pos@),
            es == all_entries(segs@),
            sv == keys::keys_view(spoils@),
            n == spoils@.len(),
            f == (|k: Seq<u64>| unknown_spoil_problem(es, k)),
            i <= n,
            texts(ps@) == b + seqs::flat_map(sv.take(i as int), f),
        decreases n - i,
    {
        let subj = key_bytes_of(spoils[i].as_slice());
        assert(sv[i as int] == spoils@[i as int]@);
        if !has_submission_exec(segs, pos, subj.as_slice()) {
            let mut m = String::new();
            push_str(&mut m, "board: spoil of unknown submission ");
            push_hex(&mut m, subj.as_slice());
            push_text(ps, m);
        }
        proof {
            seqs::lemma_flat_map_step(sv, f, i as int);
        }
        assert(texts(ps@) =~= b + seqs::flat_map(sv.take(i + 1), f));
        i = i + 1;
    }
    proof {
        seqs::lemma_flat_map_all(sv, f);
    }
}

fn last_provisional_exec(
    segs: &Vec<BoardSegment>,
    pos: &Vec<(usize, usize)>,
    ds: &Vec<DispositionRecord>,
    subj: &[u8],
    i: usize,
) -> (res: Option<usize>)
    requires
        positions_ok(segs@, pos@),
        i <= ds@.len(),
    ensures
        match res {
            Some(j) => j < i && last_provisional_before(all_entries(segs@), ds@, subj@, i as int)
                == Some(j as int),
            None => last_provisional_before(all_entries(segs@), ds@, subj@, i as int) is None,
        },
{
    let ghost es = all_entries(segs@);
    let mut k = i;
    while k > 0
        invariant
            positions_ok(segs@, pos@),
            es == all_entries(segs@),
            k <= i <= ds@.len(),
            last_provisional_before(es, ds@, subj@, i as int) == last_provisional_before(
                es,
                ds@,
                subj@,
                k as int,
            ),
        decreases k,
    {
        let d = &ds[k - 1];
        let provisional = match d.decision {
            DispositionDecision::IncludeProvisional | DispositionDecision::ExcludeProvisional => true,
            _ => false,
        };
        if provisional && bytes_eq(d.subject.as_slice(), subj) && has_submission_exec(
            segs,
            pos,
            d.subject.as_slice(),
        ) {
            return Some(k - 1);
        }
        k = k - 1;
    }
    None
}

fn check_disposition(
    ps: &mut Vec<String>,
    r: &ElectionRecord,
    pos: &Vec<(usize, usize)>,
    i: usize,
)
    requires
        positions_ok(r.segments@, pos@),
        i < r.dispositions@.len(),
    ensures
        texts(final(ps)@) == texts(old(ps)@) + disposition_problems(*r, i as int),
{
    let ghost es = all_entries(r.segments@);
    let segs = &r.segments;
    let d = &r.dispositions[i];
    let subj = d.subject.as_slice();
    if !has_submission_exec(segs, pos, subj) {
        let mut m = disposition_label_of(d);
        push_str(&mut m, ": subject is not a published submission");
        push_text(ps, m);
    } else {
        match d.decision {
            DispositionDecision::IncludeProvisional | DispositionDecision::ExcludeProvisional => {
                let is_provisional_cast = match last_cast_exec(segs, pos, subj, pos.len()) {
                    Some(c) => {
                        let (a, b) = pos[c];
                        assert(segs@[a as int].entries@[b as int] == es[c as int]);
                        segs[a].entries[b].flags.provisional
                    },
                    None => false,
                };
                if !is_provisional_cast {
                    let mut m = disposition_label_of(d);
                    push_str(
                        &mut m,
                        ": provisional decision for a subject that is not a provisional cast",
                    );
                    push_text(ps, m);
                }
                if last_provisional_exec(segs, pos, &r.dispositions, subj, i).is_some() {
                    let mut m = disposition_label_of(d);
                    push_str(&mut m, ": multiple provisional decisions for one subject");
                    push_text(ps, m);
                }
            },
            DispositionDecision::ExcludeTest => {
                let is_test_cast = match last_cast_exec(segs, pos, subj, pos.len()) {
                    Some(c) => {
                        let (a, b) = pos[c];
                        assert(segs@[a as int].entries@[b as int] == es[c as int]);
                        segs[a].entries[b].flags.test
                    },
                    None => false,
                };
                if !is_test_cast {
                    let mut m = disposition_label_of(d);
                    push_str(&mut m, ": test exclusion for a non-test subject");
                    push_text(ps, m);
                }
            },
            DispositionDecision::SpoiledByCheck | DispositionDecision::VoidMisprint => {
                if !has_spoil_exec(segs, pos, subj) {
                    let mut m = disposition_label_of(d);
                    push_str(&mut m, ": spoil/void decision without a matching board spoil entry");
                    push_text(ps, m);
                }
            },
        }
    }
    assert(texts(final(ps)@) =~= texts(old(ps)@) + disposition_problems(*r, i as int));
}

/// The final provisional decision about `subj`.
fn final_decision_exec(r: &ElectionRecord, pos: &Vec<(usize, usize)>, subj: &[u8]) -> (res: Option<
    DispositionDecision,
>)
    requires
        positions_ok(r.segments@, pos@),
    ensures
        res == final_decision(*r, subj@),
{
    match last_provisional_exec(&r.segments, pos, &r.dispositions, subj, r.dispositions.len()) {
        Some(j) => Some(r.dispositions[j].decision),
        None => None,
    }
}

fn expected_input_exec(r: &ElectionRecord, pos: &Vec<(usize, usize)>, subj: &[u8]) -> (b: bool)
    requires
        positions_ok(r.segments@, pos@),
    ensures
        b == expected_input(*r, subj@),
{
    let ghost es = all_entries(r.segments@);
    match last_cast_exec(&r.segments, pos, subj, pos.len()) {
        None => false,
        Some(c) => {
            let (a, b) = pos[c];
            let e = &r.segments[a].entries[b];
            assert(*e == es[c as int]);
            if e.flags.test {
                false
            } else if e.flags.provisional {
                match final_decision_exec(r, pos, subj) {
                    Some(DispositionDecision::IncludeProvisional) => true,
                    _ => false,
                }
            } else {
                true
            }
        },
    }
}

fn is_input_exec(t: &TallyTranscript, b: &[u8]) -> (res: bool)
    ensures
        res == is_input(*t, b@),
{
    let n = t.input_trackers.len();
    let mut i: usize = 0;
    while i < n
        invariant
            n == t.input_trackers@.len(),
            i <= n,
            forall|j: int| 0 <= j < i ==> (#[trigger] t.input_trackers@[j])@ != b@,
        decreases n - i,
    {
        if bytes_eq(t.input_trackers[i].as_slice(), b) {
            return true;
        }
        i = i + 1;
    }
    false
}

fn has_duplicates_exec(t: &TallyTranscript) -> (res: bool)
    ensures
        res == has_duplicate_inputs(*t),
{
    let n = t.input_trackers.len();
    let mut j: usize = 0;
    while j < n
        invariant
            n == t.input_trackers@.len(),
            j <= n,
            forall|a: int, b: int|
                0 <= a < b < j ==> (#[trigger] t.input_trackers@[a])@
                    != (#[trigger] t.input_trackers@[b])@,
        decreases n - j,
    {
        let mut i: usize = 0;
        while i < j
            invariant
                n == t.input_trackers@.len(),
                j < n,
                i <= j,
                forall|a: int| 0 <= a < i ==> (#[trigger] t.input_trackers@[a])@ != t.input_trackers@[j as int]@,
            decreases j - i,
        {
            if bytes_eq(t.input_trackers[i].as_slice(), t.input_trackers[j].as_slice()) {
                return true;
            }
            i = i + 1;
        }
        j = j + 1;
    }
    false
}

fn input_keys_exec(t: &TallyTranscript) -> (ks: Vec<Vec<u64>>)
    ensures
        keys::keys_view(ks@) == input_keys(*t),
{
    let n = t.input_trackers.len();
    let mut ks: Vec<Vec<u64>> = Vec::new();
    let mut i: usize = 0;
    while i < n
        invariant
            n == t.input_trackers@.len(),
            i <= n,
            ks@.len() == i,
            keys::keys_view(ks@) == input_keys(*t).take(i as int),
        decreases n - i,
    {
        let k = bytes_key_of(t.input_trackers[i].as_slice());
        let ghost kv = k@;
        ks.push(k);
        assert(ks@[i as int]@ == kv);
        assert(keys::keys_view(ks@) =~= input_keys(*t).take(i + 1));
        i = i + 1;
    }
    assert(input_keys(*t).take(n as int) =~= input_keys(*t));
    ks
}

fn check_completeness(
    ps: &mut Vec<String>,
    r: &ElectionRecord,
    pos: &Vec<(usize, usize)>,
    casts: &Vec<Vec<u64>>,
    t: &TallyTranscript,
)
    requires
        positions_ok(r.segments@, pos@),
        keys::keys_view(casts@) == keys::sorted_keys(cast_keys(all_entries(r.segments@))),
    ensures
        texts(final(ps)@) == texts(old(ps)@) + completeness_problems(*r, *t),
{
    let ghost es = all_entries(r.segments@);
    let ghost cv = keys::keys_view(casts@);
    let ghost start = texts(ps@);
    let ghost f = |k: Seq<u64>| undecided_problem(*r, k);
    let n = casts.len();
    let mut i: usize = 0;
    while i < n
        invariant
            positions_ok(r.segments@, pos@),
            es == all_entries(r.segments@),
            cv == keys::keys_view(casts@),
            n == casts@.len(),
            f == (|k: Seq<u64>| undecided_problem(*r, k)),
            i <= n,
            texts(ps@) == start + seqs::flat_map(cv.take(i as int), f),
        decreases n - i,
    {
        let subj = key_bytes_of(casts[i].as_slice());
        assert(cv[i as int] == casts@[i as int]@);
        let provisional = match last_cast_exec(&r.segments, pos, subj.as_slice(), pos.len()) {
            Some(c) => {
                let (a, b) = pos[c];
                assert(r.segments@[a as int].entries@[b as int] == es[c as int]);
                r.segments[a].entries[b].flags.provisional
            },
            None => false,
        };
        if provisional && final_decision_exec(r, pos, subj.as_slice()).is_none() {
            let mut m = String::new();
            push_str(&mut m, "mix-input: provisional cast ");
            push_hex(&mut m, subj.as_slice());
            push_str(&mut m, " has no disposition but the transcript is published");
            push_text(ps, m);
        }
        proof {
            seqs::lemma_flat_map_step(cv, f, i as int);
        }
        assert(texts(ps@) =~= start + seqs::flat_map(cv.take(i + 1), f));
        i = i + 1;
    }
    proof {
        seqs::lemma_flat_map_all(cv, f);
    }
    if has_duplicates_exec(t) {
        let mut m = String::new();
        push_str(&mut m, "transcript: duplicate input trackers");
        push_text(ps, m);
    }
    let ghost b = texts(ps@);
    let ghost g = |k: Seq<u64>| missing_problem(*r, *t, k);
    let mut i: usize = 0;
    while i < n
        invariant
            positions_ok(r.segments@, pos@),
            cv == keys::keys_view(casts@),
            n == casts@.len(),
            g == (|k: Seq<u64>| missing_problem(*r, *t, k)),
            i <= n,
            texts(ps@) == b + seqs::flat_map(cv.take(i as int), g),
        decreases n - i,
    {
        let subj = key_bytes_of(casts[i].as_slice());
        assert(cv[i as int] == casts@[i as int]@);
        if expected_input_exec(r, pos, subj.as_slice()) && !is_input_exec(t, subj.as_slice()) {
            let mut m = String::new();
            push_str(&mut m, "mix-input: cast cryptogram ");
            push_hex(&mut m, subj.as_slice());
            push_str(&mut m, " is missing from the transcript input");
            push_text(ps, m);
        }
        proof {
            seqs::lemma_flat_map_step(cv, g, i as int);
        }
        assert(texts(ps@) =~= b + seqs::flat_map(cv.take(i + 1), g));
        i = i + 1;
    }
    proof {
        seqs::lemma_flat_map_all(cv, g);
    }
    let ks = input_keys_exec(t);
    let sorted = sort_keys(&ks);
    let ghost tv = keys::keys_view(sorted@);
    let ghost b2 = texts(ps@);
    let ghost h = |k: Seq<u64>| extra_problem(*r, k);
    let m = sorted.len();
    let mut i: usize = 0;
    while i < m
        invariant
            positions_ok(r.segments@, pos@),
            tv == keys::keys_view(sorted@),
            m == sorted@.len(),
            h == (|k: Seq<u64>| extra_problem(*r, k)),
            i <= m,
            texts(ps@) == b2 + seqs::flat_map(tv.take(i as int), h),
        decreases m - i,
    {
        let subj = key_bytes_of(sorted[i].as_slice());
        assert(tv[i as int] == sorted@[i as int]@);
        if !expected_input_exec(r, pos, subj.as_slice()) {
            let mut msg = String::new();
            push_str(&mut msg, "mix-input: transcript input ");
            push_hex(&mut msg, subj.as_slice());
            push_str(&mut msg, " is not a validly included cast cryptogram");
            push_text(ps, msg);
        }
        proof {
            seqs::lemma_flat_map_step(tv, h, i as int);
        }
        assert(texts(ps@) =~= b2 + seqs::flat_map(tv.take(i + 1), h));
        i = i + 1;
    }
    proof {
        seqs::lemma_flat_map_all(tv, h);
    }
    assert(texts(ps@) =~= start + completeness_problems(*r, *t));
}

/// Runs the dispositions check.
pub fn dispositions_check(r: &ElectionRecord) -> (s: CheckStatus)
    ensures
        s@ == dispositions_status(*r),
{
    let ghost es = all_entries(r.segments@);
    let pos = entry_positions(&r.segments);
    let mut ps: Vec<String> = Vec::new();
    assert(texts(ps@) =~= Seq::<Seq<char>>::empty());
    let (cast_list, spoil_list) = board_pass(&mut ps, &r.segments, &pos);
    let casts = sort_keys(&cast_list);
    let spoils = sort_keys(&spoil_list);
    subject_pass(&mut ps, &r.segments, &pos, &casts, &spoils);
    let ghost b = texts(ps@);
    let ghost f = |i: int| disposition_problems(*r, i);
    let n = r.dispositions.len();
    let mut i: usize = 0;
    while i < n
        invariant
            positions_ok(r.segments@, pos@),
            n == r.dispositions@.len(),
            f == (|i: int| disposition_problems(*r, i)),
            i <= n,
            texts(ps@) == b + seqs::flat_range(i as int, f),
        decreases n - i,
    {
        check_disposition(&mut ps, r, &pos, i);
        assert(texts(ps@) =~= b + seqs::flat_range(i + 1, f));
        i = i + 1;
    }
    assert(texts(ps@) =~= validity_problems(*r));
    match &r.transcript {
        None => {
            if ps.len() == 0 {
                let mut reason = String::new();
                push_str(
                    &mut reason,
                    "disposition validity passed; mix-input completeness deferred until a transcript is published",
                );
                CheckStatus::Skipped { reason }
            } else {
                CheckStatus::Fail { problems: ps }
            }
        },
        Some(t) => {
            check_completeness(&mut ps, r, &pos, &casts, t);
            report::status_from(ps)
        },
    }
}

} // verus!
