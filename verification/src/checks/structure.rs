//! Structural validity: schema versions, the election hash and its binding
//! to the configuration, roster sanity, and in-band device key consistency.

use super::labels::{self, attestation_label_of, disposition_label_of, report_label_of, segment_label_of};
use crate::attestation::ChainHeadAttestation;
use crate::board::BoardSegment;
use crate::bytes::{bytes_eq, Bytes};
use crate::crypto::{self, hash256};
use crate::disposition::DispositionRecord;
use crate::record::ElectionRecord;
use crate::schema::{self, version_compatible};
use crate::seqs::{self, push_text, texts};
use crate::tabulator::TabulatorReport;
use crate::text::{self, push_debug, push_dec, push_hex, push_str};
use vstd::prelude::*;

verus! {

/// `{what}: unsupported schema version {v:?}` when `v` is not compatible.
pub open spec fn version_problem(what: Seq<char>, v: Seq<char>) -> Seq<Seq<char>> {
    if schema::spec_version_compatible(v) {
        Seq::empty()
    } else {
        seq![what + ": unsupported schema version "@ + text::debug_text(v)]
    }
}

/// Every artifact's schema version, in the order config, segments,
/// attestations, dispositions, tabulator reports, transcript.
pub open spec fn version_problems(r: ElectionRecord) -> Seq<Seq<char>> {
    version_problem("config"@, r.config.schema_version@) + seqs::flat_map(
        r.segments@,
        |s: BoardSegment| version_problem("segment"@, s.schema_version@),
    ) + seqs::flat_map(
        r.attestations@,
        |a: ChainHeadAttestation| version_problem("attestation"@, a.schema_version@),
    ) + seqs::flat_map(
        r.dispositions@,
        |d: DispositionRecord| version_problem("disposition"@, d.schema_version@),
    ) + seqs::flat_map(
        r.tabulator_reports@,
        |t: TabulatorReport| version_problem("tabulator-report"@, t.schema_version@),
    ) + match r.transcript {
        Some(t) => version_problem("transcript"@, t.schema_version@),
        None => Seq::empty(),
    }
}

/// The election hash must be the SHA3-256 hash of the configuration's
/// canonical signing input.
pub open spec fn hash_problems(r: ElectionRecord) -> Seq<Seq<char>> {
    let computed = crypto::sha3_256(r.config.spec_signing_input());
    if computed == r.config.election_hash@ {
        Seq::empty()
    } else {
        seq![
            "config: election_hash "@ + text::hex_text(r.config.election_hash@)
                + " does not match SHA3-256 of the configuration ("@ + text::hex_text(computed)
                + ")"@,
        ]
    }
}

/// The threshold must be between 1 and the number of trustees.
pub open spec fn threshold_problems(r: ElectionRecord) -> Seq<Seq<char>> {
    if r.config.threshold == 0 || r.config.threshold > r.config.trustees@.len() {
        seq![
            "config: threshold "@ + text::dec_text(r.config.threshold as nat) + " invalid for "@
                + text::dec_text(r.config.trustees@.len()) + " trustees"@,
        ]
    } else {
        Seq::empty()
    }
}

/// `{what}: election_hash {hex} differs from config` when `got` differs
/// from the configuration's election hash `eh`.
pub open spec fn mismatch_problem(what: Seq<char>, got: Seq<u8>, eh: Seq<u8>) -> Seq<Seq<char>> {
    if got == eh {
        Seq::empty()
    } else {
        seq![what + ": election_hash "@ + text::hex_text(got) + " differs from config"@]
    }
}

/// Every other artifact must carry the configuration's election hash.
pub open spec fn mismatch_problems(r: ElectionRecord) -> Seq<Seq<char>> {
    let eh = r.config.election_hash@;
    seqs::flat_map(
        r.segments@,
        |s: BoardSegment| mismatch_problem(labels::segment_label(s), s.election_hash@, eh),
    ) + seqs::flat_map(
        r.attestations@,
        |a: ChainHeadAttestation|
            mismatch_problem(labels::attestation_label(a), a.election_hash@, eh),
    ) + seqs::flat_map(
        r.dispositions@,
        |d: DispositionRecord| mismatch_problem(labels::disposition_label(d), d.election_hash@, eh),
    ) + seqs::flat_map(
        r.tabulator_reports@,
        |t: TabulatorReport| mismatch_problem(labels::report_label(t), t.election_hash@, eh),
    ) + match r.transcript {
        Some(t) => mismatch_problem("transcript"@, t.election_hash@, eh),
        None => Seq::empty(),
    }
}

/// The index of the last segment before position `j` whose site is `site`.
pub open spec fn last_site_before(segs: Seq<BoardSegment>, site: Seq<char>, j: int) -> Option<int>
    decreases j,
{
    if j <= 0 {
        None
    } else if segs[j - 1].site_id@ == site {
        Some(j - 1)
    } else {
        last_site_before(segs, site, j - 1)
    }
}

/// A segment whose DBB key differs from that of the latest earlier segment
/// of the same site.
pub open spec fn segment_key_problem(segs: Seq<BoardSegment>, j: int) -> Seq<Seq<char>> {
    match last_site_before(segs, segs[j].site_id@, j) {
        Some(i) => if segs[i].dbb_verifying_key@ != segs[j].dbb_verifying_key@ {
            seq![
                labels::segment_label(segs[j])
                    + ": DBB key differs from earlier segment of the same site"@,
            ]
        } else {
            Seq::empty()
        },
        None => Seq::empty(),
    }
}

/// An attestation whose DBB key differs from that of the last segment of
/// its site.
pub open spec fn attestation_key_problem(segs: Seq<BoardSegment>, a: ChainHeadAttestation) -> Seq<
    Seq<char>,
> {
    match last_site_before(segs, a.site_id@, segs.len() as int) {
        Some(i) => if segs[i].dbb_verifying_key@ != a.dbb_verifying_key@ {
            seq![labels::attestation_label(a) + ": DBB key differs from the site's segments"@]
        } else {
            Seq::empty()
        },
        None => Seq::empty(),
    }
}

/// The index of the last report before position `j` of tabulator `tab` at
/// `site`.
pub open spec fn last_tab_before(
    ts: Seq<TabulatorReport>,
    site: Seq<char>,
    tab: Seq<char>,
    j: int,
) -> Option<int>
    decreases j,
{
    if j <= 0 {
        None
    } else if ts[j - 1].site_id@ == site && ts[j - 1].tab_id@ == tab {
        Some(j - 1)
    } else {
        last_tab_before(ts, site, tab, j - 1)
    }
}

/// A report whose tabulator key differs from that of the latest earlier
/// report of the same tabulator.
pub open spec fn report_key_problem(ts: Seq<TabulatorReport>, j: int) -> Seq<Seq<char>> {
    match last_tab_before(ts, ts[j].site_id@, ts[j].tab_id@, j) {
        Some(i) => if ts[i].tab_verifying_key@ != ts[j].tab_verifying_key@ {
            seq![
                labels::report_label(ts[j])
                    + ": tabulator key differs from an earlier report"@,
            ]
        } else {
            Seq::empty()
        },
        None => Seq::empty(),
    }
}

/// In-band device keys must be consistent per device.
pub open spec fn key_problems(r: ElectionRecord) -> Seq<Seq<char>> {
    seqs::flat_range(
        r.segments@.len() as int,
        |j: int| segment_key_problem(r.segments@, j),
    ) + seqs::flat_map(
        r.attestations@,
        |a: ChainHeadAttestation| attestation_key_problem(r.segments@, a),
    ) + seqs::flat_range(
        r.tabulator_reports@.len() as int,
        |j: int| report_key_problem(r.tabulator_reports@, j),
    )
}

/// Everything the structure check reports, in order.
pub open spec fn structure_problems(r: ElectionRecord) -> Seq<Seq<char>> {
    version_problems(r) + hash_problems(r) + threshold_problems(r) + mismatch_problems(r)
        + key_problems(r)
}

fn version_message(what: &str, v: &str) -> (m: String)
    ensures
        m@ == what@ + ": unsupported schema version "@ + text::debug_text(v@),
{
    let mut m = String::new();
    push_str(&mut m, what);
    push_str(&mut m, ": unsupported schema version ");
    push_debug(&mut m, v);
    m
}

fn check_version(ps: &mut Vec<String>, what: &str, v: &String)
    ensures
        texts(final(ps)@) == texts(old(ps)@) + version_problem(what@, v@),
{
    if !version_compatible(v.as_str()) {
        push_text(ps, version_message(what, v.as_str()));
    } else {
        assert(texts(final(ps)@) =~= texts(old(ps)@) + version_problem(what@, v@));
    }
}

fn check_versions(ps: &mut Vec<String>, r: &ElectionRecord)
    ensures
        texts(final(ps)@) == texts(old(ps)@) + version_problems(*r),
{
    let ghost start = texts(ps@);
    check_version(ps, "config", &r.config.schema_version);
    let ghost b = texts(ps@);
    let ghost f = |s: BoardSegment| version_problem("segment"@, s.schema_version@);
    let n = r.segments.len();
    let mut i: usize = 0;
    while i < n
        invariant
            n == r.segments@.len(),
            f == (|s: BoardSegment| version_problem("segment"@, s.schema_version@)),
            i <= n,
            texts(ps@) == b + seqs::flat_map(r.segments@.take(i as int), f),
        decreases n - i,
    {
        check_version(ps, "segment", &r.segments[i].schema_version);
        proof {
            seqs::lemma_flat_map_step(r.segments@, f, i as int);
        }
        assert(texts(ps@) =~= b + seqs::flat_map(r.segments@.take(i + 1), f));
        i = i + 1;
    }
    proof {
        seqs::lemma_flat_map_all(r.segments@, f);
    }
    let ghost b = texts(ps@);
    let ghost f = |a: ChainHeadAttestation| version_problem("attestation"@, a.schema_version@);
    let n = r.attestations.len();
    let mut i: usize = 0;
    while i < n
        invariant
            n == r.attestations@.len(),
            f == (|a: ChainHeadAttestation| version_problem("attestation"@, a.schema_version@)),
            i <= n,
            texts(ps@) == b + seqs::flat_map(r.attestations@.take(i as int), f),
        decreases n - i,
    {
        check_version(ps, "attestation", &r.attestations[i].schema_version);
        proof {
            seqs::lemma_flat_map_step(r.attestations@, f, i as int);
        }
        assert(texts(ps@) =~= b + seqs::flat_map(r.attestations@.take(i + 1), f));
        i = i + 1;
    }
    proof {
        seqs::lemma_flat_map_all(r.attestations@, f);
    }
    let ghost b = texts(ps@);
    let ghost f = |d: DispositionRecord| version_problem("disposition"@, d.schema_version@);
    let n = r.dispositions.len();
    let mut i: usize = 0;
    while i < n
        invariant
            n == r.dispositions@.len(),
            f == (|d: DispositionRecord| version_problem("disposition"@, d.schema_version@)),
            i <= n,
            texts(ps@) == b + seqs::flat_map(r.dispositions@.take(i as int), f),
        decreases n - i,
    {
        check_version(ps, "disposition", &r.dispositions[i].schema_version);
        proof {
            seqs::lemma_flat_map_step(r.dispositions@, f, i as int);
        }
        assert(texts(ps@) =~= b + seqs::flat_map(r.dispositions@.take(i + 1), f));
        i = i + 1;
    }
    proof {
        seqs::lemma_flat_map_all(r.dispositions@, f);
    }
    let ghost b = texts(ps@);
    let ghost f = |t: TabulatorReport| version_problem("tabulator-report"@, t.schema_version@);
    let n = r.tabulator_reports.len();
    let mut i: usize = 0;
    while i < n
        invariant
            n == r.tabulator_reports@.len(),
            f == (|t: TabulatorReport| version_problem("tabulator-report"@, t.schema_version@)),
            i <= n,
            texts(ps@) == b + seqs::flat_map(r.tabulator_reports@.take(i as int), f),
        decreases n - i,
    {
        check_version(ps, "tabulator-report", &r.tabulator_reports[i].schema_version);
        proof {
            seqs::lemma_flat_map_step(r.tabulator_reports@, f, i as int);
        }
        assert(texts(ps@) =~= b + seqs::flat_map(r.tabulator_reports@.take(i + 1), f));
        i = i + 1;
    }
    proof {
        seqs::lemma_flat_map_all(r.tabulator_reports@, f);
    }
    match &r.transcript {
        Some(t) => check_version(ps, "transcript", &t.schema_version),
        None => {},
    }
    assert(texts(ps@) =~= start + version_problems(*r));
}

fn check_hash(ps: &mut Vec<String>, r: &ElectionRecord)
    ensures
        texts(final(ps)@) == texts(old(ps)@) + hash_problems(*r),
{
    let input = r.config.signing_input();
    let computed = hash256(input.as_slice());
    if !bytes_eq(&computed, r.config.election_hash.as_slice()) {
        let mut m = String::new();
        push_str(&mut m, "config: election_hash ");
        push_hex(&mut m, r.config.election_hash.as_slice());
        push_str(&mut m, " does not match SHA3-256 of the configuration (");
        push_hex(&mut m, &computed);
        push_str(&mut m, ")");
        push_text(ps, m);
    } else {
        assert(texts(final(ps)@) =~= texts(old(ps)@) + hash_problems(*r));
    }
}

fn check_threshold(ps: &mut Vec<String>, r: &ElectionRecord)
    ensures
        texts(final(ps)@) == texts(old(ps)@) + threshold_problems(*r),
{
    if r.config.threshold == 0 || (r.config.threshold as usize) > r.config.trustees.len() {
        let mut m = String::new();
        push_str(&mut m, "config: threshold ");
        push_dec(&mut m, r.config.threshold as u64);
        push_str(&mut m, " invalid for ");
        push_dec(&mut m, r.config.trustees.len() as u64);
        push_str(&mut m, " trustees");
        push_text(ps, m);
    } else {
        assert(texts(final(ps)@) =~= texts(old(ps)@) + threshold_problems(*r));
    }
}

fn check_mismatch(ps: &mut Vec<String>, what: String, got: &Bytes, eh: &Bytes)
    ensures
        texts(final(ps)@) == texts(old(ps)@) + mismatch_problem(what@, got@, eh@),
{
    if !bytes_eq(got.as_slice(), eh.as_slice()) {
        let mut m = what;
        push_str(&mut m, ": election_hash ");
        push_hex(&mut m, got.as_slice());
        push_str(&mut m, " differs from config");
        push_text(ps, m);
    } else {
        assert(texts(final(ps)@) =~= texts(old(ps)@) + mismatch_problem(what@, got@, eh@));
    }
}

fn check_mismatches(ps: &mut Vec<String>, r: &ElectionRecord)
    ensures
        texts(final(ps)@) == texts(old(ps)@) + mismatch_problems(*r),
{
    let ghost start = texts(ps@);
    let eh = &r.config.election_hash;
    let ghost b = texts(ps@);
    let ghost f = |s: BoardSegment| mismatch_problem(labels::segment_label(s), s.election_hash@, eh@);
    let n = r.segments.len();
    let mut i: usize = 0;
    while i < n
        invariant
            n == r.segments@.len(),
            eh == &r.config.election_hash,
            f == (|s: BoardSegment| mismatch_problem(labels::segment_label(s), s.election_hash@, eh@)),
            i <= n,
            texts(ps@) == b + seqs::flat_map(r.segments@.take(i as int), f),
        decreases n - i,
    {
        let s = &r.segments[i];
        check_mismatch(ps, segment_label_of(s), &s.election_hash, eh);
        proof {
            seqs::lemma_flat_map_step(r.segments@, f, i as int);
        }
        assert(texts(ps@) =~= b + seqs::flat_map(r.segments@.take(i + 1), f));
        i = i + 1;
    }
    proof {
        seqs::lemma_flat_map_all(r.segments@, f);
    }
    let ghost b = texts(ps@);
    let ghost f = |a: ChainHeadAttestation|
        mismatch_problem(labels::attestation_label(a), a.election_hash@, eh@);
    let n = r.attestations.len();
    let mut i: usize = 0;
    while i < n
        invariant
            n == r.attestations@.len(),
            eh == &r.config.election_hash,
            f == (|a: ChainHeadAttestation|
                mismatch_problem(labels::attestation_label(a), a.election_hash@, eh@)),
            i <= n,
            texts(ps@) == b + seqs::flat_map(r.attestations@.take(i as int), f),
        decreases n - i,
    {
        let a = &r.attestations[i];
        check_mismatch(ps, attestation_label_of(a), &a.election_hash, eh);
        proof {
            seqs::lemma_flat_map_step(r.attestations@, f, i as int);
        }
        assert(texts(ps@) =~= b + seqs::flat_map(r.attestations@.take(i + 1), f));
        i = i + 1;
    }
    proof {
        seqs::lemma_flat_map_all(r.attestations@, f);
    }
    let ghost b = texts(ps@);
    let ghost f = |d: DispositionRecord|
        mismatch_problem(labels::disposition_label(d), d.election_hash@, eh@);
    let n = r.dispositions.len();
    let mut i: usize = 0;
    while i < n
        invariant
            n == r.dispositions@.len(),
            eh == &r.config.election_hash,
            f == (|d: DispositionRecord|
                mismatch_problem(labels::disposition_label(d), d.election_hash@, eh@)),
            i <= n,
            texts(ps@) == b + seqs::flat_map(r.dispositions@.take(i as int), f),
        decreases n - i,
    {
        let d = &r.dispositions[i];
        check_mismatch(ps, disposition_label_of(d), &d.election_hash, eh);
        proof {
            seqs::lemma_flat_map_step(r.dispositions@, f, i as int);
        }
        assert(texts(ps@) =~= b + seqs::flat_map(r.dispositions@.take(i + 1), f));
        i = i + 1;
    }
    proof {
        seqs::lemma_flat_map_all(r.dispositions@, f);
    }
    let ghost b = texts(ps@);
    let ghost f = |t: TabulatorReport|
        mismatch_problem(labels::report_label(t), t.election_hash@, eh@);
    let n = r.tabulator_reports.len();
    let mut i: usize = 0;
    while i < n
        invariant
            n == r.tabulator_reports@.len(),
            eh == &r.config.election_hash,
            f == (|t: TabulatorReport|
                mismatch_problem(labels::report_label(t), t.election_hash@, eh@)),
            i <= n,
            texts(ps@) == b + seqs::flat_map(r.tabulator_reports@.take(i as int), f),
        decreases n - i,
    {
        let t = &r.tabulator_reports[i];
        check_mismatch(ps, report_label_of(t), &t.election_hash, eh);
        proof {
            seqs::lemma_flat_map_step(r.tabulator_reports@, f, i as int);
        }
        assert(texts(ps@) =~= b + seqs::flat_map(r.tabulator_reports@.take(i + 1), f));
        i = i + 1;
    }
    proof {
        seqs::lemma_flat_map_all(r.tabulator_reports@, f);
    }
    match &r.transcript {
        Some(t) => {
            let mut what = String::new();
            push_str(&mut what, "transcript");
            check_mismatch(ps, what, &t.election_hash, eh);
        },
        None => {},
    }
    assert(texts(ps@) =~= start + mismatch_problems(*r));
}

fn last_site_index(segs: &Vec<BoardSegment>, site: &String, j: usize) -> (res: Option<usize>)
    requires
        j <= segs@.len(),
    ensures
        match res {
            Some(i) => i < j && last_site_before(segs@, site@, j as int) == Some(i as int),
            None => last_site_before(segs@, site@, j as int) is None,
        },
{
    let mut k = j;
    while k > 0
        invariant
            k <= j <= segs@.len(),
            last_site_before(segs@, site@, j as int) == last_site_before(segs@, site@, k as int),
        decreases k,
    {
        if segs[k - 1].site_id == *site {
            return Some(k - 1);
        }
        k = k - 1;
    }
    None
}

fn last_tab_index(ts: &Vec<TabulatorReport>, site: &String, tab: &String, j: usize) -> (res: Option<
    usize,
>)
    requires
        j <= ts@.len(),
    ensures
        match res {
            Some(i) => i < j && last_tab_before(ts@, site@, tab@, j as int) == Some(i as int),
            None => last_tab_before(ts@, site@, tab@, j as int) is None,
        },
{
    let mut k = j;
    while k > 0
        invariant
            k <= j <= ts@.len(),
            last_tab_before(ts@, site@, tab@, j as int) == last_tab_before(
                ts@,
                site@,
                tab@,
                k as int,
            ),
        decreases k,
    {
        if ts[k - 1].site_id == *site && ts[k - 1].tab_id == *tab {
            return Some(k - 1);
        }
        k = k - 1;
    }
    None
}

fn check_keys(ps: &mut Vec<String>, r: &ElectionRecord)
    ensures
        texts(final(ps)@) == texts(old(ps)@) + key_problems(*r),
{
    let ghost start = texts(ps@);
    let segs = &r.segments;
    let ghost b = texts(ps@);
    let ghost f = |j: int| segment_key_problem(segs@, j);
    let n = segs.len();
    let mut j: usize = 0;
    while j < n
        invariant
            n == segs@.len(),
            segs == &r.segments,
            f == (|j: int| segment_key_problem(segs@, j)),
            j <= n,
            texts(ps@) == b + seqs::flat_range(j as int, f),
        decreases n - j,
    {
        let s = &segs[j];
        match last_site_index(segs, &s.site_id, j) {
            Some(i) => {
                if !bytes_eq(segs[i].dbb_verifying_key.as_slice(), s.dbb_verifying_key.as_slice()) {
                    let mut m = segment_label_of(s);
                    push_str(&mut m, ": DBB key differs from earlier segment of the same site");
                    push_text(ps, m);
                }
            },
            None => {},
        }
        assert(texts(ps@) =~= b + seqs::flat_range(j + 1, f));
        j = j + 1;
    }
    let ghost b = texts(ps@);
    let ghost f = |a: ChainHeadAttestation| attestation_key_problem(segs@, a);
    let m = r.attestations.len();
    let mut i: usize = 0;
    while i < m
        invariant
            m == r.attestations@.len(),
            n == segs@.len(),
            segs == &r.segments,
            f == (|a: ChainHeadAttestation| attestation_key_problem(segs@, a)),
            i <= m,
            texts(ps@) == b + seqs::flat_map(r.attestations@.take(i as int), f),
        decreases m - i,
    {
        let a = &r.attestations[i];
        match last_site_index(segs, &a.site_id, n) {
            Some(k) => {
                if !bytes_eq(segs[k].dbb_verifying_key.as_slice(), a.dbb_verifying_key.as_slice()) {
                    let mut t = attestation_label_of(a);
                    push_str(&mut t, ": DBB key differs from the site's segments");
                    push_text(ps, t);
                }
            },
            None => {},
        }
        proof {
            seqs::lemma_flat_map_step(r.attestations@, f, i as int);
        }
        assert(texts(ps@) =~= b + seqs::flat_map(r.attestations@.take(i + 1), f));
        i = i + 1;
    }
    proof {
        seqs::lemma_flat_map_all(r.attestations@, f);
    }
    let ts = &r.tabulator_reports;
    let ghost b = texts(ps@);
    let ghost f = |j: int| report_key_problem(ts@, j);
    let n = ts.len();
    let mut j: usize = 0;
    while j < n
        invariant
            n == ts@.len(),
            ts == &r.tabulator_reports,
            f == (|j: int| report_key_problem(ts@, j)),
            j <= n,
            texts(ps@) == b + seqs::flat_range(j as int, f),
        decreases n - j,
    {
        let t = &ts[j];
        match last_tab_index(ts, &t.site_id, &t.tab_id, j) {
            Some(i) => {
                if !bytes_eq(ts[i].tab_verifying_key.as_slice(), t.tab_verifying_key.as_slice()) {
                    let mut m = report_label_of(t);
                    push_str(&mut m, ": tabulator key differs from an earlier report");
                    push_text(ps, m);
                }
            },
            None => {},
        }
        assert(texts(ps@) =~= b + seqs::flat_range(j + 1, f));
        j = j + 1;
    }
    assert(texts(ps@) =~= start + key_problems(*r));
}

/// Runs the structure check and returns its findings, in order.
pub fn structure_findings(r: &ElectionRecord) -> (ps: Vec<String>)
    ensures
        texts(ps@) == structure_problems(*r),
{
    let mut ps: Vec<String> = Vec::new();
    assert(texts(ps@) =~= Seq::<Seq<char>>::empty());
    check_versions(&mut ps, r);
    check_hash(&mut ps, r);
    check_threshold(&mut ps, r);
    check_mismatches(&mut ps, r);
    check_keys(&mut ps, r);
    assert(texts(ps@) =~= structure_problems(*r));
    ps
}

} // verus!
