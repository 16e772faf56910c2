//! Verification report structures and their rendering.

use crate::seqs::{self, texts};
use crate::text::push_str;
use vstd::prelude::*;

verus! {

/// The outcome of one check.
#[derive(Debug, Clone, PartialEq, Eq)]
pub enum CheckStatus {
    /// The check ran and everything it examined was correct.
    Pass,
    /// The check found problems; each string pinpoints one.
    Fail {
        /// Human-readable findings, one per problem.
        problems: Vec<String>,
    },
    /// The check did not run; the reason says why.
    Skipped {
        /// Why the check was skipped.
        reason: String,
    },
}

/// What a check's outcome says: pass, the texts of its problems, or the
/// reason it was skipped.
pub enum StatusView {
    Pass,
    Fail(Seq<Seq<char>>),
    Skipped(Seq<char>),
}

impl View for CheckStatus {
    type V = StatusView;

    open spec fn view(&self) -> StatusView {
        match self {
            CheckStatus::Pass => StatusView::Pass,
            CheckStatus::Fail { problems } => StatusView::Fail(texts(problems@)),
            CheckStatus::Skipped { reason } => StatusView::Skipped(reason@),
        }
    }
}

/// A check passes when it found no problem, and fails with its problems in
/// order otherwise.
pub open spec fn status_of(problems: Seq<Seq<char>>) -> StatusView {
    if problems.len() == 0 {
        StatusView::Pass
    } else {
        StatusView::Fail(problems)
    }
}

/// Pass when there are no problems, else fail with them.
pub fn status_from(problems: Vec<String>) -> (r: CheckStatus)
    ensures
        r@ == status_of(texts(problems@)),
{
    if problems.len() == 0 {
        CheckStatus::Pass
    } else {
        CheckStatus::Fail { problems }
    }
}

/// One named check's result.
#[derive(Debug, Clone, PartialEq, Eq)]
pub struct CheckResult {
    /// Check name (stable identifier).
    pub name: String,
    /// Outcome.
    pub status: CheckStatus,
}

/// Overall verification outcome. Fail-closed: `Pass` requires every check
/// to pass; any skip caps the outcome at `Partial`; any failure is `Fail`.
#[derive(Debug, Clone, Copy, PartialEq, Eq, Structural)]
pub enum Overall {
    /// Every check passed: a full verification.
    Pass,
    /// No failures, but at least one check was skipped: not a full
    /// verification.
    Partial,
    /// At least one check failed.
    Fail,
}

/// The complete report.
#[derive(Debug, Clone)]
pub struct VerificationReport {
    /// Per-check results, in execution order.
    pub results: Vec<CheckResult>,
}

/// The names and outcomes of a list of results.
pub open spec fn results_view(rs: Seq<CheckResult>) -> Seq<(Seq<char>, StatusView)> {
    rs.map_values(|r: CheckResult| (r.name@, r.status@))
}

/// The overall outcome of a list of results: `Fail` if any failed, else
/// `Partial` if any was skipped, else `Pass`.
pub open spec fn spec_overall(rs: Seq<(Seq<char>, StatusView)>) -> Overall {
    if exists|i: int| 0 <= i < rs.len() && (#[trigger] rs[i]).1 is Fail {
        Overall::Fail
    } else if exists|i: int| 0 <= i < rs.len() && (#[trigger] rs[i]).1 is Skipped {
        Overall::Partial
    } else {
        Overall::Pass
    }
}

/// The text line of a passing, skipped or failing check, with one indented
/// line per problem.
pub open spec fn result_text(r: (Seq<char>, StatusView)) -> Seq<char> {
    match r.1 {
        StatusView::Pass => "PASS  "@ + r.0 + "\n"@,
        StatusView::Skipped(reason) => "SKIP  "@ + r.0 + " \u{2014} "@ + reason + "\n"@,
        StatusView::Fail(ps) => "FAIL  "@ + r.0 + "\n"@ + seqs::flat_map(
            ps,
            |p: Seq<char>| "      - "@ + p + "\n"@,
        ),
    }
}

/// The closing line naming the overall outcome.
pub open spec fn overall_text(o: Overall) -> Seq<char> {
    "overall: "@ + match o {
        Overall::Pass => "PASS \u{2014} full verification"@,
        Overall::Partial =>
            "PARTIAL \u{2014} no failures, but skipped checks mean this is NOT a full verification"@,
        Overall::Fail => "FAIL \u{2014} the published record did not verify"@,
    } + "\n"@
}

/// The plain-text rendering of a report.
pub open spec fn report_text(rs: Seq<(Seq<char>, StatusView)>) -> Seq<char> {
    seqs::flat_map(rs, |r: (Seq<char>, StatusView)| result_text(r)) + overall_text(spec_overall(rs))
}

/// The severity of an outcome: `Pass` < `Partial` < `Fail`.
pub open spec fn overall_rank(o: Overall) -> int {
    match o {
        Overall::Pass => 0,
        Overall::Partial => 1,
        Overall::Fail => 2,
    }
}

/// The severity one check's outcome contributes.
pub open spec fn status_rank(s: StatusView) -> int {
    match s {
        StatusView::Pass => 0,
        StatusView::Skipped(_) => 1,
        StatusView::Fail(_) => 2,
    }
}

/// Fail-closed reporting: the overall outcome is `Pass` exactly when every
/// check passed; a skipped or failed check always withholds a full pass.
pub proof fn lemma_pass_only_when_all_pass(rs: Seq<(Seq<char>, StatusView)>)
    ensures
        (spec_overall(rs) == Overall::Pass) <==> forall|i: int|
            0 <= i < rs.len() ==> (#[trigger] rs[i]).1 is Pass,
{
    if spec_overall(rs) == Overall::Pass {
        assert forall|i: int| 0 <= i < rs.len() implies (#[trigger] rs[i]).1 is Pass by {
            if !(rs[i].1 is Pass) {
                if rs[i].1 is Fail {
                } else {
                    assert(rs[i].1 is Skipped);
                }
            }
        }
    }
}

/// The overall outcome is the most severe outcome of any check; in
/// particular, adding a result never improves it.
pub proof fn lemma_overall_of_push(rs: Seq<(Seq<char>, StatusView)>, r: (Seq<char>, StatusView))
    ensures
        overall_rank(spec_overall(rs.push(r))) == if overall_rank(spec_overall(rs)) >= status_rank(
            r.1,
        ) {
            overall_rank(spec_overall(rs))
        } else {
            status_rank(r.1)
        },
        overall_rank(spec_overall(rs.push(r))) >= overall_rank(spec_overall(rs)),
{
    let t = rs.push(r);
    assert(t[rs.len() as int] == r);
    assert forall|i: int| 0 <= i < rs.len() implies #[trigger] t[i] == rs[i] by {}
    if exists|i: int| 0 <= i < rs.len() && (#[trigger] rs[i]).1 is Fail {
        let i = choose|i: int| 0 <= i < rs.len() && (#[trigger] rs[i]).1 is Fail;
        assert(t[i].1 is Fail);
    } else if exists|i: int| 0 <= i < rs.len() && (#[trigger] rs[i]).1 is Skipped {
        let i = choose|i: int| 0 <= i < rs.len() && (#[trigger] rs[i]).1 is Skipped;
        assert(t[i].1 is Skipped);
        if r.1 is Fail {
            assert(t[rs.len() as int].1 is Fail);
        } else {
            assert(!exists|j: int| 0 <= j < t.len() && (#[trigger] t[j]).1 is Fail) by {
                assert forall|j: int| 0 <= j < t.len() implies !((#[trigger] t[j]).1 is Fail) by {
                    if j < rs.len() {
                        assert(t[j] == rs[j]);
                    }
                }
            }
        }
    } else {
        if r.1 is Fail {
            assert(t[rs.len() as int].1 is Fail);
        } else if r.1 is Skipped {
            assert(t[rs.len() as int].1 is Skipped);
            assert(!exists|j: int| 0 <= j < t.len() && (#[trigger] t[j]).1 is Fail) by {
                assert forall|j: int| 0 <= j < t.len() implies !((#[trigger] t[j]).1 is Fail) by {
                    if j < rs.len() {
                        assert(t[j] == rs[j]);
                    }
                }
            }
        } else {
            assert forall|j: int| 0 <= j < t.len() implies !((#[trigger] t[j]).1 is Fail) && !(
            t[j].1 is Skipped) by {
                if j < rs.len() {
                    assert(t[j] == rs[j]);
                }
            }
        }
    }
}

impl Default for VerificationReport {
    fn default() -> (r: Self)
        ensures
            r.results@ == Seq::<CheckResult>::empty(),
    {
        VerificationReport { results: Vec::new() }
    }
}

impl VerificationReport {
    /// The names and outcomes of the results, in order.
    pub open spec fn spec_results(&self) -> Seq<(Seq<char>, StatusView)> {
        results_view(self.results@)
    }

    /// Appends one check's result.
    pub fn push(&mut self, name: &str, status: CheckStatus)
        ensures
            final(self).spec_results() == old(self).spec_results().push((name@, status@)),
    {
        let ghost sv = status@;
        self.results.push(CheckResult { name: name.to_owned(), status });
        assert(final(self).spec_results() =~= old(self).spec_results().push((name@, sv)));
    }

    /// The overall outcome (see [`Overall`]).
    pub fn overall(&self) -> (o: Overall)
        ensures
            o == spec_overall(self.spec_results()),
    {
        let ghost rs = self.spec_results();
        let n = self.results.len();
        let mut skipped = false;
        let mut i: usize = 0;
        while i < n
            invariant
                n == self.results@.len(),
                rs == self.spec_results(),
                i <= n,
                forall|j: int| 0 <= j < i ==> !((#[trigger] rs[j]).1 is Fail),
                skipped == exists|j: int| 0 <= j < i && (#[trigger] rs[j]).1 is Skipped,
            decreases n - i,
        {
            assert(rs[i as int] == (self.results@[i as int].name@, self.results@[i as int].status@));
            match &self.results[i].status {
                CheckStatus::Fail { .. } => {
                    return Overall::Fail;
                },
                CheckStatus::Skipped { .. } => {
                    skipped = true;
                },
                CheckStatus::Pass => {},
            }
            i = i + 1;
        }
        if skipped {
            Overall::Partial
        } else {
            Overall::Pass
        }
    }

    /// Plain-text rendering for terminals.
    pub fn to_text(&self) -> (t: String)
        ensures
            t@ == report_text(self.spec_results()),
    {
        let ghost rs = self.spec_results();
        let ghost f = |r: (Seq<char>, StatusView)| result_text(r);
        let mut out = String::new();
        let n = self.results.len();
        let mut i: usize = 0;
        while i < n
            invariant
                n == self.results@.len(),
                rs == self.spec_results(),
                f == (|r: (Seq<char>, StatusView)| result_text(r)),
                i <= n,
                out@ == seqs::flat_map(rs.take(i as int), f),
            decreases n - i,
        {
            let r = &self.results[i];
            assert(rs[i as int] == (r.name@, r.status@));
            let ghost before = out@;
            match &r.status {
                CheckStatus::Pass => {
                    push_str(&mut out, "PASS  ");
                    push_str(&mut out, r.name.as_str());
                    push_str(&mut out, "\n");
                },
                CheckStatus::Skipped { reason } => {
                    push_str(&mut out, "SKIP  ");
                    push_str(&mut out, r.name.as_str());
                    push_str(&mut out, " \u{2014} ");
                    push_str(&mut out, reason.as_str());
                    push_str(&mut out, "\n");
                },
                CheckStatus::Fail { problems } => {
                    push_str(&mut out, "FAIL  ");
                    push_str(&mut out, r.name.as_str());
                    push_str(&mut out, "\n");
                    let ghost head = out@;
                    let ghost ps = texts(problems@);
                    let ghost g = |p: Seq<char>| "      - "@ + p + "\n"@;
                    let m = problems.len();
                    let mut j: usize = 0;
                    while j < m
                        invariant
                            m == problems@.len(),
                            ps == texts(problems@),
                            g == (|p: Seq<char>| "      - "@ + p + "\n"@),
                            j <= m,
                            out@ == head + seqs::flat_map(ps.take(j as int), g),
                        decreases m - j,
                    {
                        push_str(&mut out, "      - ");
                        push_str(&mut out, problems[j].as_str());
                        push_str(&mut out, "\n");
                        proof {
                            seqs::lemma_flat_map_step(ps, g, j as int);
                        }
                        assert(out@ =~= head + seqs::flat_map(ps.take(j + 1), g));
                        j = j + 1;
                    }
                    proof {
                        seqs::lemma_flat_map_all(ps, g);
                    }
                },
            }
            proof {
                seqs::lemma_flat_map_step(rs, f, i as int);
            }
            assert(out@ =~= seqs::flat_map(rs.take(i + 1), f));
            i = i + 1;
        }
        proof {
            seqs::lemma_flat_map_all(rs, f);
        }
        let o = self.overall();
        push_str(&mut out, "overall: ");
        match o {
            Overall::Pass => push_str(&mut out, "PASS \u{2014} full verification"),
            Overall::Partial => push_str(
                &mut out,
                "PARTIAL \u{2014} no failures, but skipped checks mean this is NOT a full verification",
            ),
            Overall::Fail => push_str(&mut out, "FAIL \u{2014} the published record did not verify"),
        }
        push_str(&mut out, "\n");
        assert(out@ =~= report_text(rs));
        out
    }
}

} // verus!
