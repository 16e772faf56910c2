//! The reconciliation identity: the cryptographic tally equals the sum of
//! the tabulators' paper-derived totals (regular ballots).

use crate::disposition::DispositionDecision;
use crate::keys::{self, key_eq, push_text_key, sort_keys};
use crate::record::ElectionRecord;
use crate::report::{self, CheckStatus, StatusView};
use crate::seqs::{self, push_text, texts};
use crate::tabulator::{ContestTotals, OptionTotal, TabulatorReport};
use crate::text::{self, push_debug, push_dec_wide, push_str};
use crate::transcript::TallyTranscript;
use vstd::prelude::*;

verus! {

/// One counted line: contest id, option id, count.
pub type Line = (Seq<char>, Seq<char>, nat);

/// The lines of a list of contest totals, in order.
pub open spec fn totals_lines(cs: Seq<ContestTotals>) -> Seq<Line> {
    seqs::flat_map(
        cs,
        |c: ContestTotals|
            c.options@.map_values(|o: OptionTotal| (c.contest_id@, o.option_id@, o.count as nat)),
    )
}

/// The lines of every tabulator report, in order.
pub open spec fn tab_lines(r: ElectionRecord) -> Seq<Line> {
    seqs::flat_map(r.tabulator_reports@, |t: TabulatorReport| totals_lines(t.totals@))
}

/// The (contest, option) key of a line.
pub open spec fn line_key(l: Line) -> Seq<u64> {
    keys::join_key(keys::text_key(l.0), keys::text_key(l.1))
}

/// The keys of a list of lines, in order.
pub open spec fn line_keys(ls: Seq<Line>) -> Seq<Seq<u64>> {
    ls.map_values(|l: Line| line_key(l))
}

/// The total count of the lines with key `k`.
pub open spec fn sum_for(ls: Seq<Line>, k: Seq<u64>) -> nat {
    seqs::sum_of(
        ls,
        |l: Line|
            if line_key(l) == k {
                l.2
            } else {
                0nat
            },
    )
}

/// The position of the first line from `j` on with key `k`.
pub open spec fn first_line_from(ls: Seq<Line>, k: Seq<u64>, j: int) -> int
    decreases ls.len() - j,
{
    if j < 0 || j >= ls.len() {
        ls.len() as int
    } else if line_key(ls[j]) == k {
        j
    } else {
        first_line_from(ls, k, j + 1)
    }
}

/// A (contest, option) whose cryptographic tally differs from the
/// tabulator sum.
pub open spec fn reconciliation_problem(r: ElectionRecord, t: TallyTranscript, k: Seq<u64>) -> Seq<
    Seq<char>,
> {
    let tabs = tab_lines(r);
    let crypto = totals_lines(t.tallies@);
    let all = tabs + crypto;
    let l = all[first_line_from(all, k, 0)];
    let s = sum_for(tabs, k);
    let c = sum_for(crypto, k);
    if s != c {
        seq![
            "contest "@ + text::debug_text(l.0) + " option "@ + text::debug_text(l.1)
                + ": cryptographic tally "@ + text::dec_text(c) + " != tabulator sum "@
                + text::dec_text(s),
        ]
    } else {
        Seq::empty()
    }
}

/// Every (contest, option) of either side, in key order.
pub open spec fn reconciliation_keys(r: ElectionRecord, t: TallyTranscript) -> Seq<Seq<u64>> {
    keys::sorted_keys(line_keys(tab_lines(r) + totals_lines(t.tallies@)))
}

/// Whether some disposition includes a provisional ballot.
pub open spec fn has_included_provisional(r: ElectionRecord) -> bool {
    exists|i: int|
        0 <= i < r.dispositions@.len() && (#[trigger] r.dispositions@[i]).decision is IncludeProvisional
}

/// The outcome of the reconciliation check: skipped without a transcript
/// or with included provisional ballots, else the per-option differences.
pub open spec fn reconciliation_status(r: ElectionRecord) -> StatusView {
    match r.transcript {
        None => StatusView::Skipped("no transcript published yet"@),
        Some(t) => if has_included_provisional(r) {
            StatusView::Skipped(
                "record contains included provisional ballots; the provisional-inclusive reconciliation statement is staged for M1"@,
            )
        } else {
            report::status_of(
                seqs::flat_map(
                    reconciliation_keys(r, t),
                    |k: Seq<u64>| reconciliation_problem(r, t, k),
                ),
            )
        },
    }
}

/// The tabulator sum for a (contest, option) runs over every report:
/// appending a report to a record adds that report's counts for it to the
/// sum, so spreading one report's totals over several reports never changes
/// the sums the reconciliation compares.
pub proof fn lemma_tabulator_sum_appends(
    r1: ElectionRecord,
    r2: ElectionRecord,
    t: TabulatorReport,
    k: Seq<u64>,
)
    requires
        r2.tabulator_reports@ == r1.tabulator_reports@.push(t),
    ensures
        sum_for(tab_lines(r2), k) == sum_for(tab_lines(r1), k) + sum_for(totals_lines(t.totals@), k),
{
    let f = |t: TabulatorReport| totals_lines(t.totals@);
    let rs = r2.tabulator_reports@;
    assert(rs.drop_last() =~= r1.tabulator_reports@);
    assert(rs.last() == t);
    assert(tab_lines(r2) == tab_lines(r1) + totals_lines(t.totals@));
    seqs::lemma_sum_of_append(
        tab_lines(r1),
        totals_lines(t.totals@),
        |l: Line|
            if line_key(l) == k {
                l.2
            } else {
                0nat
            },
    );
}

/// A record without tabulator reports has a zero tabulator sum for every
/// (contest, option).
pub proof fn lemma_tabulator_sum_empty(r: ElectionRecord, k: Seq<u64>)
    requires
        r.tabulator_reports@.len() == 0,
    ensures
        sum_for(tab_lines(r), k) == 0,
{
}

/// The view of an executable line.
pub open spec fn line_view(l: (String, String, u64)) -> Line {
    (l.0@, l.1@, l.2 as nat)
}

/// The views of executable lines.
pub open spec fn lines_view(v: Seq<(String, String, u64)>) -> Seq<Line> {
    v.map_values(|l: (String, String, u64)| line_view(l))
}

fn push_lines(out: &mut Vec<(String, String, u64)>, cs: &Vec<ContestTotals>)
    ensures
        lines_view(final(out)@) == lines_view(old(out)@) + totals_lines(cs@),
{
    let ghost b = lines_view(out@);
    let ghost f = |c: ContestTotals|
        c.options@.map_values(|o: OptionTotal| (c.contest_id@, o.option_id@, o.count as nat));
    let n = cs.len();
    let mut i: usize = 0;
    while i < n
        invariant
            n == cs@.len(),
            f == (|c: ContestTotals|
                c.options@.map_values(
                    |o: OptionTotal| (c.contest_id@, o.option_id@, o.count as nat),
                )),
            i <= n,
            lines_view(out@) == b + seqs::flat_map(cs@.take(i as int), f),
        decreases n - i,
    {
        let c = &cs[i];
        let ghost b2 = lines_view(out@);
        let ghost g = |o: OptionTotal| (c.contest_id@, o.option_id@, o.count as nat);
        let m = c.options.len();
        let mut j: usize = 0;
        while j < m
            invariant
                m == c.options@.len(),
                g == (|o: OptionTotal| (c.contest_id@, o.option_id@, o.count as nat)),
                j <= m,
                lines_view(out@) == b2 + c.options@.take(j as int).map_values(g),
            decreases m - j,
        {
            let o = &c.options[j];
            let line = (c.contest_id.clone(), o.option_id.clone(), o.count);
            let ghost lv = line_view(line);
            let ghost before = lines_view(out@);
            out.push(line);
            assert(lines_view(out@) =~= before.push(lv));
            assert(c.options@.take(j + 1).map_values(g) =~= c.options@.take(j as int).map_values(
                g,
            ).push(g(c.options@[j as int])));
            j = j + 1;
        }
        assert(c.options@.take(m as int) =~= c.options@);
        proof {
            seqs::lemma_flat_map_step(cs@, f, i as int);
        }
        assert(lines_view(out@) =~= b + seqs::flat_map(cs@.take(i + 1), f));
        i = i + 1;
    }
    proof {
        seqs::lemma_flat_map_all(cs@, f);
    }
}

fn line_key_of(l: &(String, String, u64)) -> (k: Vec<u64>)
    ensures
        k@ == line_key(line_view(*l)),
{
    let mut k: Vec<u64> = Vec::new();
    push_text_key(&mut k, l.0.as_str());
    k.push(0);
    push_text_key(&mut k, l.1.as_str());
    assert(k@ =~= line_key(line_view(*l)));
    k
}

fn sum_lines(ls: &Vec<(String, String, u64)>, k: &Vec<u64>) -> (s: u128)
    ensures
        s as nat == sum_for(lines_view(ls@), k@),
{
    let ghost lv = lines_view(ls@);
    let ghost f = |l: Line|
        if line_key(l) == k@ {
            l.2
        } else {
            0nat
        };
    let n = ls.len();
    let mut s: u128 = 0;
    let mut i: usize = 0;
    while i < n
        invariant
            n == ls@.len(),
            lv == lines_view(ls@),
            f == (|l: Line|
                if line_key(l) == k@ {
                    l.2
                } else {
                    0nat
                }),
            i <= n,
            s as nat == seqs::sum_of(lv.take(i as int), f),
            s <= i * 0xffff_ffff_ffff_ffffu128,
        decreases n - i,
    {
        proof {
            seqs::lemma_sum_of_step(lv, f, i as int);
        }
        assert(lv[i as int] == line_view(ls@[i as int]));
        let lk = line_key_of(&ls[i]);
        if key_eq(lk.as_slice(), k.as_slice()) {
            s = s + ls[i].2 as u128;
        }
        i = i + 1;
    }
    assert(lv.take(n as int) =~= lv);
    s
}

fn first_line_exec(ls: &Vec<(String, String, u64)>, k: &Vec<u64>) -> (j: usize)
    requires
        line_keys(lines_view(ls@)).contains(k@),
    ensures
        j < ls@.len(),
        j as int == first_line_from(lines_view(ls@), k@, 0),
{
    let ghost lv = lines_view(ls@);
    let ghost w = choose|w: int| 0 <= w < lv.len() && #[trigger] line_keys(lv)[w] == k@;
    let n = ls.len();
    let mut j: usize = 0;
    while j < n
        invariant
            n == ls@.len(),
            lv == lines_view(ls@),
            0 <= w < n,
            line_key(lv[w]) == k@,
            j <= w,
            first_line_from(lv, k@, 0) == first_line_from(lv, k@, j as int),
        decreases n - j,
    {
        assert(lv[j as int] == line_view(ls@[j as int]));
        let lk = line_key_of(&ls[j]);
        if key_eq(lk.as_slice(), k.as_slice()) {
            return j;
        }
        j = j + 1;
    }
    j
}

fn reconcile(r: &ElectionRecord, t: &TallyTranscript) -> (ps: Vec<String>)
    ensures
        texts(ps@) == seqs::flat_map(
            reconciliation_keys(*r, *t),
            |k: Seq<u64>| reconciliation_problem(*r, *t, k),
        ),
{
    let mut tabs: Vec<(String, String, u64)> = Vec::new();
    let ghost f = |t: TabulatorReport| totals_lines(t.totals@);
    assert(lines_view(tabs@) =~= seqs::flat_map(r.tabulator_reports@.take(0), f));
    let n = r.tabulator_reports.len();
    let mut i: usize = 0;
    while i < n
        invariant
            n == r.tabulator_reports@.len(),
            f == (|t: TabulatorReport| totals_lines(t.totals@)),
            i <= n,
            lines_view(tabs@) == seqs::flat_map(r.tabulator_reports@.take(i as int), f),
        decreases n - i,
    {
        push_lines(&mut tabs, &r.tabulator_reports[i].totals);
        proof {
            seqs::lemma_flat_map_step(r.tabulator_reports@, f, i as int);
        }
        i = i + 1;
    }
    proof {
        seqs::lemma_flat_map_all(r.tabulator_reports@, f);
    }
    let mut crypto: Vec<(String, String, u64)> = Vec::new();
    assert(lines_view(crypto@) =~= Seq::<Line>::empty());
    push_lines(&mut crypto, &t.tallies);
    assert(lines_view(crypto@) =~= totals_lines(t.tallies@));
    // Every line of either side, tabulators first, with its key.
    let ghost tl = tab_lines(*r);
    let ghost cl = totals_lines(t.tallies@);
    let mut all: Vec<(String, String, u64)> = Vec::new();
    let mut ks: Vec<Vec<u64>> = Vec::new();
    let m = tabs.len();
    let mut j: usize = 0;
    while j < m
        invariant
            m == tabs@.len(),
            lines_view(tabs@) == tl,
            j <= m,
            all@.len() == j,
            ks@.len() == j,
            lines_view(all@) == tl.take(j as int),
            keys::keys_view(ks@) == line_keys(tl.take(j as int)),
        decreases m - j,
    {
        assert(lines_view(tabs@)[j as int] == line_view(tabs@[j as int]));
        let l = (tabs[j].0.clone(), tabs[j].1.clone(), tabs[j].2);
        assert(line_view(l) == tl[j as int]);
        let k = line_key_of(&l);
        let ghost kv = k@;
        let ghost before = lines_view(all@);
        let ghost kbefore = keys::keys_view(ks@);
        all.push(l);
        ks.push(k);
        assert(lines_view(all@) =~= before.push(tl[j as int]));
        assert(tl.take(j + 1) =~= tl.take(j as int).push(tl[j as int]));
        assert(keys::keys_view(ks@) =~= kbefore.push(kv));
        assert(line_keys(tl.take(j + 1)) =~= line_keys(tl.take(j as int)).push(
            line_key(tl[j as int]),
        ));
        j = j + 1;
    }
    assert(tl.take(m as int) =~= tl);
    let m2 = crypto.len();
    let mut j: usize = 0;
    while j < m2
        invariant
            m2 == crypto@.len(),
            lines_view(crypto@) == cl,
            j <= m2,
            all@.len() == tl.len() + j,
            ks@.len() == tl.len() + j,
            lines_view(all@) == tl + cl.take(j as int),
            keys::keys_view(ks@) == line_keys(tl + cl.take(j as int)),
        decreases m2 - j,
    {
        assert(lines_view(crypto@)[j as int] == line_view(crypto@[j as int]));
        let l = (crypto[j].0.clone(), crypto[j].1.clone(), crypto[j].2);
        assert(line_view(l) == cl[j as int]);
        let k = line_key_of(&l);
        let ghost kv = k@;
        let ghost before = lines_view(all@);
        let ghost kbefore = keys::keys_view(ks@);
        all.push(l);
        ks.push(k);
        assert(lines_view(all@) =~= before.push(cl[j as int]));
        assert(tl + cl.take(j + 1) =~= (tl + cl.take(j as int)).push(cl[j as int]));
        assert(keys::keys_view(ks@) =~= kbefore.push(kv));
        assert(line_keys(tl + cl.take(j + 1)) =~= line_keys(tl + cl.take(j as int)).push(
            line_key(cl[j as int]),
        ));
        j = j + 1;
    }
    assert(cl.take(m2 as int) =~= cl);
    let sorted = sort_keys(&ks);
    let ghost sv = keys::keys_view(sorted@);
    proof {
        keys::lemma_sorted_keys_members(line_keys(tl + cl));
    }
    let mut ps: Vec<String> = Vec::new();
    let ghost g = |k: Seq<u64>| reconciliation_problem(*r, *t, k);
    assert(texts(ps@) =~= seqs::flat_map(sv.take(0), g));
    let q = sorted.len();
    let mut i: usize = 0;
    while i < q
        invariant
            sv == keys::keys_view(sorted@),
            sv == reconciliation_keys(*r, *t),
            forall|p: int| 0 <= p < sv.len() ==> line_keys(tl + cl).contains(#[trigger] sv[p]),
            lines_view(all@) == tl + cl,
            lines_view(tabs@) == tl,
            lines_view(crypto@) == cl,
            tl == tab_lines(*r),
            cl == totals_lines(t.tallies@),
            q == sorted@.len(),
            g == (|k: Seq<u64>| reconciliation_problem(*r, *t, k)),
            i <= q,
            texts(ps@) == seqs::flat_map(sv.take(i as int), g),
        decreases q - i,
    {
        let k = &sorted[i];
        assert(sv[i as int] == k@);
        let s = sum_lines(&tabs, k);
        let c = sum_lines(&crypto, k);
        if s != c {
            let w = first_line_exec(&all, k);
            assert(lines_view(all@)[w as int] == line_view(all@[w as int]));
            let mut msg = String::new();
            push_str(&mut msg, "contest ");
            push_debug(&mut msg, all[w].0.as_str());
            push_str(&mut msg, " option ");
            push_debug(&mut msg, all[w].1.as_str());
            push_str(&mut msg, ": cryptographic tally ");
            push_dec_wide(&mut msg, c);
            push_str(&mut msg, " != tabulator sum ");
            push_dec_wide(&mut msg, s);
            push_text(&mut ps, msg);
        }
        proof {
            seqs::lemma_flat_map_step(sv, g, i as int);
        }
        assert(texts(ps@) =~= seqs::flat_map(sv.take(i + 1), g));
        i = i + 1;
    }
    proof {
        seqs::lemma_flat_map_all(sv, g);
    }
    ps
}

/// Runs the reconciliation check.
pub fn reconciliation_check(r: &ElectionRecord) -> (s: CheckStatus)
    ensures
        s@ == reconciliation_status(*r),
{
    match &r.transcript {
        None => {
            let mut reason = String::new();
            push_str(&mut reason, "no transcript published yet");
            CheckStatus::Skipped { reason }
        },
        Some(t) => {
            let n = r.dispositions.len();
            let mut i: usize = 0;
            while i < n
                invariant
                    n == r.dispositions@.len(),
                    r.transcript is Some,
                    i <= n,
                    forall|j: int|
                        0 <= j < i ==> !((#[trigger] r.dispositions@[j]).decision is IncludeProvisional),
                decreases n - i,
            {
                match r.dispositions[i].decision {
                    DispositionDecision::IncludeProvisional => {
                        assert(has_included_provisional(*r)) by {
                            assert(r.dispositions@[i as int].decision is IncludeProvisional);
                        }
                        let mut reason = String::new();
                        push_str(
                            &mut reason,
                            "record contains included provisional ballots; the provisional-inclusive reconciliation statement is staged for M1",
                        );
                        return CheckStatus::Skipped { reason };
                    },
                    _ => {},
                }
                i = i + 1;
            }
            report::status_from(reconcile(r, t))
        },
    }
}

} // verus!
