//! Tabulator end-of-day reports: the paper-derived running totals and card
//! accounting that anchor the reconciliation identity.

use crate::bytes::Bytes;
use crate::schema::{self, le64_bytes, CanonicalWriter};
use vstd::prelude::*;

verus! {

/// Totals for one option within one contest.
#[derive(Debug, Clone, PartialEq, Eq)]
pub struct OptionTotal {
    /// Option identifier (manifest-defined).
    pub option_id: String,
    /// Vote count.
    pub count: u64,
}

/// Totals for one contest.
#[derive(Debug, Clone, PartialEq, Eq)]
pub struct ContestTotals {
    /// Contest identifier (manifest-defined).
    pub contest_id: String,
    /// Per-option counts.
    pub options: Vec<OptionTotal>,
}

/// One tabulator's signed report for one site and day.
#[derive(Debug, Clone, PartialEq, Eq)]
pub struct TabulatorReport {
    /// Schema version of this artifact.
    pub schema_version: String,
    /// The election hash.
    pub election_hash: Bytes,
    /// Site identifier.
    pub site_id: String,
    /// Tabulator identifier within the site.
    pub tab_id: String,
    /// Voting day (ISO-8601 date).
    pub day: String,
    /// Per-contest running totals from scanned cards (regular ballots only).
    pub totals: Vec<ContestTotals>,
    /// Regular cards accepted and stored.
    pub cards_regular: u64,
    /// Provisional cards stored (excluded from `totals`).
    pub cards_provisional: u64,
    /// Cards rejected (spoiled, duplicate, forged, malformed).
    pub cards_rejected: u64,
    /// The tabulator's Ed25519 verifying key.
    pub tab_verifying_key: Bytes,
    /// Tabulator Ed25519 signature over [`Self::signing_input`].
    pub signature: Bytes,
}

/// The fields of one option total: option id, then count (u64 LE).
pub open spec fn option_fields(o: OptionTotal) -> Seq<Seq<u8>> {
    seq![schema::str_bytes(o.option_id@), schema::le64(o.count)]
}

/// The fields of one contest: its id, then each option's fields in order.
pub open spec fn contest_fields(c: ContestTotals) -> Seq<Seq<u8>> {
    seq![schema::str_bytes(c.contest_id@)] + schema::concat_map(
        c.options@,
        |o: OptionTotal| option_fields(o),
    )
}

/// The fields of a list of contest totals, in order.
pub open spec fn totals_fields(cs: Seq<ContestTotals>) -> Seq<Seq<u8>> {
    schema::concat_map(cs, |c: ContestTotals| contest_fields(c))
}

fn push_options(w: &mut CanonicalWriter, os: &Vec<OptionTotal>)
    requires
        old(w).wf(),
    ensures
        final(w).wf(),
        final(w).tag() == old(w).tag(),
        final(w).fields() == old(w).fields() + schema::concat_map(
            os@,
            |o: OptionTotal| option_fields(o),
        ),
{
    let ghost base = w.fields();
    let ghost f = |o: OptionTotal| option_fields(o);
    let n = os.len();
    let mut i: usize = 0;
    while i < n
        invariant
            w.wf(),
            w.tag() == old(w).tag(),
            n == os@.len(),
            f == (|o: OptionTotal| option_fields(o)),
            i <= n,
            w.fields() == base + schema::concat_map(os@.take(i as int), f),
        decreases n - i,
    {
        let count = le64_bytes(os[i].count);
        w.field(os[i].option_id.as_str().as_bytes());
        w.field(count.as_slice());
        proof {
            schema::lemma_concat_map_step(os@, f, i as int);
            assert(f(os@[i as int]) == option_fields(os@[i as int]));
        }
        assert(w.fields() =~= base + schema::concat_map(os@.take(i + 1), f));
        i = i + 1;
    }
    proof {
        schema::lemma_concat_map_all(os@, f);
    }
}

/// Appends the fields of each contest total, in order.
pub fn push_totals(w: &mut CanonicalWriter, cs: &Vec<ContestTotals>)
    requires
        old(w).wf(),
    ensures
        final(w).wf(),
        final(w).tag() == old(w).tag(),
        final(w).fields() == old(w).fields() + totals_fields(cs@),
{
    let ghost base = w.fields();
    let ghost f = |c: ContestTotals| contest_fields(c);
    let n = cs.len();
    let mut i: usize = 0;
    while i < n
        invariant
            w.wf(),
            w.tag() == old(w).tag(),
            n == cs@.len(),
            f == (|c: ContestTotals| contest_fields(c)),
            i <= n,
            w.fields() == base + schema::concat_map(cs@.take(i as int), f),
        decreases n - i,
    {
        let ghost before = w.fields();
        w.field(cs[i].contest_id.as_str().as_bytes());
        push_options(w, &cs[i].options);
        proof {
            schema::lemma_concat_map_step(cs@, f, i as int);
            assert(f(cs@[i as int]) == contest_fields(cs@[i as int]));
        }
        assert(w.fields() =~= base + schema::concat_map(cs@.take(i + 1), f));
        i = i + 1;
    }
    proof {
        schema::lemma_concat_map_all(cs@, f);
    }
}

impl TabulatorReport {
    /// The fields the tabulator signature covers: election hash, site,
    /// tabulator id, day, each contest id with each option id and count
    /// (u64 LE) in listed order, then the three card counters (u64 LE each).
    pub open spec fn spec_signing_fields(&self) -> Seq<Seq<u8>> {
        seq![
            self.election_hash@,
            schema::str_bytes(self.site_id@),
            schema::str_bytes(self.tab_id@),
            schema::str_bytes(self.day@),
        ] + totals_fields(self.totals@) + seq![
            schema::le64(self.cards_regular),
            schema::le64(self.cards_provisional),
            schema::le64(self.cards_rejected),
        ]
    }

    /// The canonical input the tabulator signature covers.
    pub open spec fn spec_signing_input(&self) -> Seq<u8> {
        schema::canonical(crate::ds_tags::TABULATOR_REPORT@, self.spec_signing_fields())
    }

    /// The canonical byte input the tabulator signature covers.
    pub fn signing_input(&self) -> (r: Vec<u8>)
        ensures
            r@ == self.spec_signing_input(),
    {
        let regular = le64_bytes(self.cards_regular);
        let provisional = le64_bytes(self.cards_provisional);
        let rejected = le64_bytes(self.cards_rejected);
        let mut w = CanonicalWriter::new(&crate::ds_tags::TABULATOR_REPORT);
        w.field(self.election_hash.as_slice());
        w.field(self.site_id.as_str().as_bytes());
        w.field(self.tab_id.as_str().as_bytes());
        w.field(self.day.as_str().as_bytes());
        push_totals(&mut w, &self.totals);
        w.field(regular.as_slice());
        w.field(provisional.as_slice());
        w.field(rejected.as_slice());
        assert(w.fields() =~= self.spec_signing_fields());
        w.finish()
    }
}

} // verus!
