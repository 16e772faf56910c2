//! Card accounting closure: per site and day, the tabulators' card counters
//! equal the board's cast counts.

use super::attestations::{self, recount_entries};
use crate::board::BoardSegment;
use crate::keys::{self, push_text_key, sort_keys, key_eq};
use crate::record::ElectionRecord;
use crate::seqs::{self, push_text, texts};
use crate::tabulator::TabulatorReport;
use crate::text::{self, push_dec_wide, push_str};
use vstd::prelude::*;

verus! {

/// The key of a (site, day) pair.
pub open spec fn site_day_key(site: Seq<char>, day: Seq<char>) -> Seq<u64> {
    keys::join_key(keys::text_key(site), keys::text_key(day))
}

/// The (site, day) key of a segment.
pub open spec fn segment_key(s: BoardSegment) -> Seq<u64> {
    site_day_key(s.site_id@, s.day@)
}

/// The (site, day) key of a tabulator report.
pub open spec fn report_key(t: TabulatorReport) -> Seq<u64> {
    site_day_key(t.site_id@, t.day@)
}

/// The (site, day) keys of the segments, in publication order.
pub open spec fn segment_keys_of(segs: Seq<BoardSegment>) -> Seq<Seq<u64>> {
    segs.map_values(|s: BoardSegment| segment_key(s))
}

/// The (site, day) keys of the reports, in publication order.
pub open spec fn report_keys_of(ts: Seq<TabulatorReport>) -> Seq<Seq<u64>> {
    ts.map_values(|t: TabulatorReport| report_key(t))
}

/// The (site, day) pairs with a segment, in order.
pub open spec fn board_keys(r: ElectionRecord) -> Seq<Seq<u64>> {
    keys::sorted_keys(segment_keys_of(r.segments@))
}

/// The (site, day) pairs with a tabulator report, in order.
pub open spec fn tab_keys(r: ElectionRecord) -> Seq<Seq<u64>> {
    keys::sorted_keys(report_keys_of(r.tabulator_reports@))
}

/// The board's regular and provisional casts for key `k`, over all its
/// segments.
pub open spec fn board_counts(r: ElectionRecord, k: Seq<u64>) -> (nat, nat) {
    (
        seqs::sum_of(
            r.segments@,
            |s: BoardSegment|
                if segment_key(s) == k {
                    attestations::recount(s).1
                } else {
                    0nat
                },
        ),
        seqs::sum_of(
            r.segments@,
            |s: BoardSegment|
                if segment_key(s) == k {
                    attestations::recount(s).3
                } else {
                    0nat
                },
        ),
    )
}

/// The tabulators' regular and provisional cards for key `k`, summed over
/// its reports.
pub open spec fn tab_counts(r: ElectionRecord, k: Seq<u64>) -> (nat, nat) {
    (
        seqs::sum_of(
            r.tabulator_reports@,
            |t: TabulatorReport|
                if report_key(t) == k {
                    t.cards_regular as nat
                } else {
                    0nat
                },
        ),
        seqs::sum_of(
            r.tabulator_reports@,
            |t: TabulatorReport|
                if report_key(t) == k {
                    t.cards_provisional as nat
                } else {
                    0nat
                },
        ),
    )
}

/// The position of the first segment from `j` on with key `k`.
pub open spec fn first_segment_from(segs: Seq<BoardSegment>, k: Seq<u64>, j: int) -> int
    decreases segs.len() - j,
{
    if j < 0 || j >= segs.len() {
        segs.len() as int
    } else if segment_key(segs[j]) == k {
        j
    } else {
        first_segment_from(segs, k, j + 1)
    }
}

/// The position of the first report from `j` on with key `k`.
pub open spec fn first_report_from(ts: Seq<TabulatorReport>, k: Seq<u64>, j: int) -> int
    decreases ts.len() - j,
{
    if j < 0 || j >= ts.len() {
        ts.len() as int
    } else if report_key(ts[j]) == k {
        j
    } else {
        first_report_from(ts, k, j + 1)
    }
}

/// The Debug rendering of a pair of counts: `(a, b)`.
pub open spec fn pair_text(p: (nat, nat)) -> Seq<char> {
    "("@ + text::dec_text(p.0) + ", "@ + text::dec_text(p.1) + ")"@
}

/// A (site, day) whose board casts and tabulator cards differ.
pub open spec fn board_problem(r: ElectionRecord, k: Seq<u64>) -> Seq<Seq<char>> {
    let s = r.segments@[first_segment_from(r.segments@, k, 0)];
    if board_counts(r, k) != tab_counts(r, k) {
        seq![
            "site "@ + s.site_id@ + "/"@ + s.day@ + ": board casts (regular, provisional) = "@
                + pair_text(board_counts(r, k)) + " but tabulator cards = "@ + pair_text(
                tab_counts(r, k),
            ),
        ]
    } else {
        Seq::empty()
    }
}

/// A (site, day) with tabulator reports but no segment.
pub open spec fn tab_only_problem(r: ElectionRecord, k: Seq<u64>) -> Seq<Seq<char>> {
    let t = r.tabulator_reports@[first_report_from(r.tabulator_reports@, k, 0)];
    if !board_keys(r).contains(k) {
        seq![
            "site "@ + t.site_id@ + "/"@ + t.day@
                + ": tabulator report without a matching board segment"@,
        ]
    } else {
        Seq::empty()
    }
}

/// Everything the card-accounting check reports: each (site, day) with a
/// segment in key order, then each with reports but no segment.
pub open spec fn accounting_problems(r: ElectionRecord) -> Seq<Seq<char>> {
    seqs::flat_map(board_keys(r), |k: Seq<u64>| board_problem(r, k)) + seqs::flat_map(
        tab_keys(r),
        |k: Seq<u64>| tab_only_problem(r, k),
    )
}

fn site_day_key_of(site: &String, day: &String) -> (k: Vec<u64>)
    ensures
        k@ == site_day_key(site@, day@),
{
    let mut k: Vec<u64> = Vec::new();
    push_text_key(&mut k, site.as_str());
    k.push(0);
    push_text_key(&mut k, day.as_str());
    assert(k@ =~= site_day_key(site@, day@));
    k
}

fn segment_keys(segs: &Vec<BoardSegment>) -> (ks: Vec<Vec<u64>>)
    ensures
        keys::keys_view(ks@) == segment_keys_of(segs@),
{
    let n = segs.len();
    let mut ks: Vec<Vec<u64>> = Vec::new();
    let mut i: usize = 0;
    while i < n
        invariant
            n == segs@.len(),
            i <= n,
            ks@.len() == i,
            keys::keys_view(ks@) == segment_keys_of(segs@).take(i as int),
        decreases n - i,
    {
        let k = site_day_key_of(&segs[i].site_id, &segs[i].day);
        let ghost kv = k@;
        ks.push(k);
        assert(ks@[i as int]@ == kv);
        assert(keys::keys_view(ks@) =~= segment_keys_of(segs@).take(
            i + 1,
        ));
        i = i + 1;
    }
    assert(segment_keys_of(segs@).take(n as int) =~= segment_keys_of(segs@));
    ks
}

fn report_keys(ts: &Vec<TabulatorReport>) -> (ks: Vec<Vec<u64>>)
    ensures
        keys::keys_view(ks@) == report_keys_of(ts@),
{
    let n = ts.len();
    let mut ks: Vec<Vec<u64>> = Vec::new();
    let mut i: usize = 0;
    while i < n
        invariant
            n == ts@.len(),
            i <= n,
            ks@.len() == i,
            keys::keys_view(ks@) == report_keys_of(ts@).take(
                i as int,
            ),
        decreases n - i,
    {
        let k = site_day_key_of(&ts[i].site_id, &ts[i].day);
        let ghost kv = k@;
        ks.push(k);
        assert(ks@[i as int]@ == kv);
        assert(keys::keys_view(ks@) =~= report_keys_of(ts@).take(
            i + 1,
        ));
        i = i + 1;
    }
    assert(report_keys_of(ts@).take(n as int) =~= report_keys_of(ts@));
    ks
}

fn board_counts_exec(r: &ElectionRecord, k: &Vec<u64>) -> (c: (u128, u128))
    ensures
        (c.0 as nat, c.1 as nat) == board_counts(*r, k@),
{
    let segs = &r.segments;
    let ghost fr = |s: BoardSegment|
        if segment_key(s) == k@ {
            attestations::recount(s).1
        } else {
            0nat
        };
    let ghost fp = |s: BoardSegment|
        if segment_key(s) == k@ {
            attestations::recount(s).3
        } else {
            0nat
        };
    let n = segs.len();
    let mut regular: u128 = 0;
    let mut provisional: u128 = 0;
    let mut j: usize = 0;
    while j < n
        invariant
            n == segs@.len(),
            fr == (|s: BoardSegment|
                if segment_key(s) == k@ {
                    attestations::recount(s).1
                } else {
                    0nat
                }),
            fp == (|s: BoardSegment|
                if segment_key(s) == k@ {
                    attestations::recount(s).3
                } else {
                    0nat
                }),
            j <= n,
            regular as nat == seqs::sum_of(segs@.take(j as int), fr),
            provisional as nat == seqs::sum_of(segs@.take(j as int), fp),
            regular <= j * 0xffff_ffff_ffff_ffffu128,
            provisional <= j * 0xffff_ffff_ffff_ffffu128,
        decreases n - j,
    {
        proof {
            seqs::lemma_sum_of_step(segs@, fr, j as int);
            seqs::lemma_sum_of_step(segs@, fp, j as int);
        }
        let sk = site_day_key_of(&segs[j].site_id, &segs[j].day);
        if key_eq(sk.as_slice(), k.as_slice()) {
            let c = recount_entries(&segs[j]);
            regular = regular + c.1 as u128;
            provisional = provisional + c.3 as u128;
        }
        j = j + 1;
    }
    assert(segs@.take(n as int) =~= segs@);
    (regular, provisional)
}

fn tab_counts_exec(r: &ElectionRecord, k: &Vec<u64>) -> (c: (u128, u128))
    ensures
        (c.0 as nat, c.1 as nat) == tab_counts(*r, k@),
{
    let ts = &r.tabulator_reports;
    let ghost fr = |t: TabulatorReport|
        if report_key(t) == k@ {
            t.cards_regular as nat
        } else {
            0nat
        };
    let ghost fp = |t: TabulatorReport|
        if report_key(t) == k@ {
            t.cards_provisional as nat
        } else {
            0nat
        };
    let n = ts.len();
    let mut regular: u128 = 0;
    let mut provisional: u128 = 0;
    let mut j: usize = 0;
    while j < n
        invariant
            n == ts@.len(),
            fr == (|t: TabulatorReport|
                if report_key(t) == k@ {
                    t.cards_regular as nat
                } else {
                    0nat
                }),
            fp == (|t: TabulatorReport|
                if report_key(t) == k@ {
                    t.cards_provisional as nat
                } else {
                    0nat
                }),
            j <= n,
            regular as nat == seqs::sum_of(ts@.take(j as int), fr),
            provisional as nat == seqs::sum_of(ts@.take(j as int), fp),
            regular <= j * 0xffff_ffff_ffff_ffffu128,
            provisional <= j * 0xffff_ffff_ffff_ffffu128,
        decreases n - j,
    {
        proof {
            seqs::lemma_sum_of_step(ts@, fr, j as int);
            seqs::lemma_sum_of_step(ts@, fp, j as int);
        }
        let tk = site_day_key_of(&ts[j].site_id, &ts[j].day);
        if key_eq(tk.as_slice(), k.as_slice()) {
            regular = regular + ts[j].cards_regular as u128;
            provisional = provisional + ts[j].cards_provisional as u128;
        }
        j = j + 1;
    }
    assert(ts@.take(n as int) =~= ts@);
    (regular, provisional)
}

fn first_segment_exec(segs: &Vec<BoardSegment>, k: &Vec<u64>) -> (j: usize)
    requires
        segment_keys_of(segs@).contains(k@),
    ensures
        j < segs@.len(),
        j as int == first_segment_from(segs@, k@, 0),
{
    let ghost w = choose|w: int|
        0 <= w < segs@.len() && #[trigger] segment_keys_of(segs@)[w]
            == k@;
    let n = segs.len();
    let mut j: usize = 0;
    while j < n
        invariant
            n == segs@.len(),
            0 <= w < n,
            segment_key(segs@[w]) == k@,
            j <= w,
            first_segment_from(segs@, k@, 0) == first_segment_from(segs@, k@, j as int),
        decreases n - j,
    {
        let sk = site_day_key_of(&segs[j].site_id, &segs[j].day);
        if key_eq(sk.as_slice(), k.as_slice()) {
            return j;
        }
        j = j + 1;
    }
    j
}

fn first_report_exec(ts: &Vec<TabulatorReport>, k: &Vec<u64>) -> (j: usize)
    requires
        report_keys_of(ts@).contains(k@),
    ensures
        j < ts@.len(),
        j as int == first_report_from(ts@, k@, 0),
{
    let ghost w = choose|w: int|
        0 <= w < ts@.len() && #[trigger] report_keys_of(ts@)[w]
            == k@;
    let n = ts.len();
    let mut j: usize = 0;
    while j < n
        invariant
            n == ts@.len(),
            0 <= w < n,
            report_key(ts@[w]) == k@,
            j <= w,
            first_report_from(ts@, k@, 0) == first_report_from(ts@, k@, j as int),
        decreases n - j,
    {
        let tk = site_day_key_of(&ts[j].site_id, &ts[j].day);
        if key_eq(tk.as_slice(), k.as_slice()) {
            return j;
        }
        j = j + 1;
    }
    j
}

fn contains_key(v: &Vec<Vec<u64>>, k: &Vec<u64>) -> (b: bool)
    ensures
        b == keys::keys_view(v@).contains(k@),
{
    let n = v.len();
    let mut i: usize = 0;
    while i < n
        invariant
            n == v@.len(),
            i <= n,
            forall|j: int| 0 <= j < i ==> (#[trigger] v@[j])@ != k@,
        decreases n - i,
    {
        if key_eq(v[i].as_slice(), k.as_slice()) {
            assert(keys::keys_view(v@)[i as int] == k@);
            return true;
        }
        i = i + 1;
    }
    assert forall|j: int| 0 <= j < keys::keys_view(v@).len() implies #[trigger] keys::keys_view(
        v@,
    )[j] != k@ by {
        assert(keys::keys_view(v@)[j] == v@[j]@);
    }
    false
}

fn push_pair(m: &mut String, p: (u128, u128))
    ensures
        final(m)@ == old(m)@ + pair_text((p.0 as nat, p.1 as nat)),
{
    push_str(m, "(");
    push_dec_wide(m, p.0);
    push_str(m, ", ");
    push_dec_wide(m, p.1);
    push_str(m, ")");
}

/// Runs the card-accounting check and returns its findings, in order.
pub fn accounting_findings(r: &ElectionRecord) -> (ps: Vec<String>)
    ensures
        texts(ps@) == accounting_problems(*r),
{
    let segs = &r.segments;
    let ts = &r.tabulator_reports;
    let sk = segment_keys(segs);
    let board = sort_keys(&sk);
    let tk = report_keys(ts);
    let tabs = sort_keys(&tk);
    let ghost bv = keys::keys_view(board@);
    let ghost tv = keys::keys_view(tabs@);
    proof {
        keys::lemma_sorted_keys_members(segment_keys_of(segs@));
        keys::lemma_sorted_keys_members(report_keys_of(ts@));
    }
    let mut ps: Vec<String> = Vec::new();
    let ghost f = |k: Seq<u64>| board_problem(*r, k);
    assert(texts(ps@) =~= seqs::flat_map(bv.take(0), f));
    let n = board.len();
    let mut i: usize = 0;
    while i < n
        invariant
            segs == &r.segments,
            bv == keys::keys_view(board@),
            bv == board_keys(*r),
            forall|q: int|
                0 <= q < bv.len() ==> segment_keys_of(segs@).contains(
                    #[trigger] bv[q],
                ),
            n == board@.len(),
            f == (|k: Seq<u64>| board_problem(*r, k)),
            i <= n,
            texts(ps@) == seqs::flat_map(bv.take(i as int), f),
        decreases n - i,
    {
        let k = &board[i];
        assert(bv[i as int] == k@);
        let b = board_counts_exec(r, k);
        let t = tab_counts_exec(r, k);
        if b.0 != t.0 || b.1 != t.1 {
            let j = first_segment_exec(segs, k);
            let s = &segs[j];
            let mut m = String::new();
            push_str(&mut m, "site ");
            push_str(&mut m, s.site_id.as_str());
            push_str(&mut m, "/");
            push_str(&mut m, s.day.as_str());
            push_str(&mut m, ": board casts (regular, provisional) = ");
            push_pair(&mut m, b);
            push_str(&mut m, " but tabulator cards = ");
            push_pair(&mut m, t);
            push_text(&mut ps, m);
        }
        proof {
            seqs::lemma_flat_map_step(bv, f, i as int);
        }
        assert(texts(ps@) =~= seqs::flat_map(bv.take(i + 1), f));
        i = i + 1;
    }
    proof {
        seqs::lemma_flat_map_all(bv, f);
    }
    let ghost b0 = texts(ps@);
    let ghost g = |k: Seq<u64>| tab_only_problem(*r, k);
    let m = tabs.len();
    let mut i: usize = 0;
    while i < m
        invariant
            ts == &r.tabulator_reports,
            bv == keys::keys_view(board@),
            bv == board_keys(*r),
            tv == keys::keys_view(tabs@),
            tv == tab_keys(*r),
            forall|q: int|
                0 <= q < tv.len() ==> report_keys_of(ts@).contains(
                    #[trigger] tv[q],
                ),
            m == tabs@.len(),
            g == (|k: Seq<u64>| tab_only_problem(*r, k)),
            i <= m,
            texts(ps@) == b0 + seqs::flat_map(tv.take(i as int), g),
        decreases m - i,
    {
        let k = &tabs[i];
        assert(tv[i as int] == k@);
        if !contains_key(&board, k) {
            let j = first_report_exec(ts, k);
            let t = &ts[j];
            let mut msg = String::new();
            push_str(&mut msg, "site ");
            push_str(&mut msg, t.site_id.as_str());
            push_str(&mut msg, "/");
            push_str(&mut msg, t.day.as_str());
            push_str(&mut msg, ": tabulator report without a matching board segment");
            push_text(&mut ps, msg);
        }
        proof {
            seqs::lemma_flat_map_step(tv, g, i as int);
        }
        assert(texts(ps@) =~= b0 + seqs::flat_map(tv.take(i + 1), g));
        i = i + 1;
    }
    proof {
        seqs::lemma_flat_map_all(tv, g);
    }
    ps
}

} // verus!
