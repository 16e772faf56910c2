//! Bulletin-board chain integrity: entry hash recomputation, entry linkage,
//! day-to-day segment chaining per site, and head correctness.

use super::labels::{self, segment_label_of};
use crate::board::{BoardSegment, BulletinEntry};
use crate::bytes::bytes_eq;
use crate::crypto::{self, hash256};
use crate::keys::{self, push_text_key, sort_keys};
use crate::record::ElectionRecord;
use crate::seqs::{self, push_text, texts};
use crate::text::{self, push_dec, push_hex, push_str};
use vstd::prelude::*;

verus! {

/// The order key of the segment at position `j`: site, then day, then
/// position (segments are grouped by site, in day order, ties kept in
/// publication order).
pub open spec fn segment_order_key(s: BoardSegment, j: int) -> Seq<u64> {
    keys::join_key(
        keys::text_key(s.site_id@),
        keys::join_key(keys::text_key(s.day@), seq![j as u64]),
    )
}

/// The order keys of all segments.
pub open spec fn segment_order_keys(segs: Seq<BoardSegment>) -> Seq<Seq<u64>> {
    Seq::new(segs.len(), |j: int| segment_order_key(segs[j], j))
}

/// The segments' order keys in increasing order.
pub open spec fn chain_order(segs: Seq<BoardSegment>) -> Seq<Seq<u64>> {
    keys::sorted_keys(segment_order_keys(segs))
}

/// The segment that comes at position `p` of the chain order.
pub open spec fn ordered_segment(segs: Seq<BoardSegment>, p: int) -> BoardSegment {
    segs[chain_order(segs)[p].last() as int]
}

/// The head a segment at position `p` must chain from: the election hash
/// for a site's first segment, else the previous segment's head.
pub open spec fn expected_previous_head(r: ElectionRecord, p: int) -> Seq<u8> {
    let segs = r.segments@;
    if p == 0 || ordered_segment(segs, p - 1).site_id@ != ordered_segment(segs, p).site_id@ {
        r.config.election_hash@
    } else {
        ordered_segment(segs, p - 1).segment_head@
    }
}

/// The hash an entry must link to: the segment's previous head for its
/// first entry, else the previous entry's hash.
pub open spec fn expected_previous_hash(s: BoardSegment, i: int) -> Seq<u8> {
    if i == 0 {
        s.previous_segment_head@
    } else {
        s.entries@[i - 1].entry_hash@
    }
}

/// The hash the last entry of a segment ends the chain with (the previous
/// head when the segment is empty).
pub open spec fn last_hash(s: BoardSegment) -> Seq<u8> {
    if s.entries@.len() == 0 {
        s.previous_segment_head@
    } else {
        s.entries@.last().entry_hash@
    }
}

/// The findings for entry `i` of segment `s`: a broken link, then a hash
/// that does not recompute.
pub open spec fn entry_problems(s: BoardSegment, i: int) -> Seq<Seq<char>> {
    let e = s.entries@[i];
    let label = labels::segment_label(s) + " entry "@ + text::dec_text(i as nat);
    (if e.previous_hash@ != expected_previous_hash(s, i) {
        seq![
            label + ": previous_hash "@ + text::hex_text(e.previous_hash@)
                + " breaks the chain (expected "@ + text::hex_text(expected_previous_hash(s, i))
                + ")"@,
        ]
    } else {
        Seq::empty()
    }) + (if crypto::sha3_256(e.spec_hash_input()) != e.entry_hash@ {
        seq![
            label + ": entry_hash "@ + text::hex_text(e.entry_hash@)
                + " does not match its recomputed hash"@,
        ]
    } else {
        Seq::empty()
    })
}

/// The findings for the segment at position `p` of the chain order.
pub open spec fn segment_problems(r: ElectionRecord, p: int) -> Seq<Seq<char>> {
    let s = ordered_segment(r.segments@, p);
    let expected = expected_previous_head(r, p);
    (if s.previous_segment_head@ != expected {
        seq![
            labels::segment_label(s) + ": previous_segment_head "@ + text::hex_text(
                s.previous_segment_head@,
            ) + " does not chain from "@ + text::hex_text(expected),
        ]
    } else {
        Seq::empty()
    }) + seqs::flat_range(s.entries@.len() as int, |i: int| entry_problems(s, i)) + (
    if s.segment_head@ != last_hash(s) {
        seq![
            labels::segment_label(s) + ": segment_head "@ + text::hex_text(s.segment_head@)
                + " does not equal the last entry hash "@ + text::hex_text(last_hash(s)),
        ]
    } else {
        Seq::empty()
    })
}

/// Everything the chain-integrity check reports: each segment in order of
/// site, then day, then publication.
pub open spec fn chain_problems(r: ElectionRecord) -> Seq<Seq<char>> {
    seqs::flat_range(
        chain_order(r.segments@).len() as int,
        |p: int| segment_problems(r, p),
    )
}

/// Chains restart per site: a segment with no segment of its own site
/// before it in the chain order must chain from the election hash, whatever
/// the other sites' segments are; a later segment of a site must chain from
/// the head of the segment just before it, which is of the same site.
pub proof fn lemma_first_segment_of_site_chains_from_election_hash(r: ElectionRecord, p: int)
    requires
        0 <= p < chain_order(r.segments@).len(),
    ensures
        (forall|q: int|
            0 <= q < p ==> (#[trigger] ordered_segment(r.segments@, q)).site_id@ != ordered_segment(
                r.segments@,
                p,
            ).site_id@) ==> expected_previous_head(r, p) == r.config.election_hash@,
        expected_previous_head(r, p) != r.config.election_hash@ ==> p > 0 && ordered_segment(
            r.segments@,
            p - 1,
        ).site_id@ == ordered_segment(r.segments@, p).site_id@ && expected_previous_head(r, p)
            == ordered_segment(r.segments@, p - 1).segment_head@,
{
    if p > 0 && forall|q: int|
        0 <= q < p ==> (#[trigger] ordered_segment(r.segments@, q)).site_id@ != ordered_segment(
            r.segments@,
            p,
        ).site_id@ {
        assert(ordered_segment(r.segments@, p - 1).site_id@ != ordered_segment(r.segments@, p).site_id@);
    }
}

fn order_keys(segs: &Vec<BoardSegment>) -> (ks: Vec<Vec<u64>>)
    ensures
        keys::keys_view(ks@) == segment_order_keys(segs@),
{
    let n = segs.len();
    let mut ks: Vec<Vec<u64>> = Vec::new();
    let mut j: usize = 0;
    while j < n
        invariant
            n == segs@.len(),
            j <= n,
            ks@.len() == j,
            keys::keys_view(ks@) == segment_order_keys(segs@).take(j as int),
        decreases n - j,
    {
        let mut k: Vec<u64> = Vec::new();
        push_text_key(&mut k, segs[j].site_id.as_str());
        k.push(0);
        push_text_key(&mut k, segs[j].day.as_str());
        k.push(0);
        k.push(j as u64);
        assert(k@ =~= segment_order_key(segs@[j as int], j as int));
        let ghost kv = k@;
        ks.push(k);
        assert(segment_order_keys(segs@)[j as int] == kv);
        assert(ks@[j as int]@ == kv);
        assert(keys::keys_view(ks@)[j as int] == ks@[j as int]@);
        assert(keys::keys_view(ks@) =~= segment_order_keys(segs@).take(j + 1));
        j = j + 1;
    }
    assert(segment_order_keys(segs@).take(n as int) =~= segment_order_keys(segs@));
    ks
}

fn check_entries(ps: &mut Vec<String>, s: &BoardSegment)
    ensures
        texts(final(ps)@) == texts(old(ps)@) + seqs::flat_range(
            s.entries@.len() as int,
            |i: int| entry_problems(*s, i),
        ),
{
    let ghost b = texts(ps@);
    let ghost f = |i: int| entry_problems(*s, i);
    let n = s.entries.len();
    let mut prev_hash: &[u8] = s.previous_segment_head.as_slice();
    let mut i: usize = 0;
    while i < n
        invariant
            n == s.entries@.len(),
            f == (|i: int| entry_problems(*s, i)),
            i <= n,
            prev_hash@ == (if i == 0 {
                s.previous_segment_head@
            } else {
                s.entries@[i - 1].entry_hash@
            }),
            texts(ps@) == b + seqs::flat_range(i as int, f),
        decreases n - i,
    {
        let e: &BulletinEntry = &s.entries[i];
        let ghost before = texts(ps@);
        if !bytes_eq(e.previous_hash.as_slice(), prev_hash) {
            let mut m = segment_label_of(s);
            push_str(&mut m, " entry ");
            push_dec(&mut m, i as u64);
            push_str(&mut m, ": previous_hash ");
            push_hex(&mut m, e.previous_hash.as_slice());
            push_str(&mut m, " breaks the chain (expected ");
            push_hex(&mut m, prev_hash);
            push_str(&mut m, ")");
            push_text(ps, m);
        }
        let input = e.hash_input();
        let recomputed = hash256(input.as_slice());
        if !bytes_eq(&recomputed, e.entry_hash.as_slice()) {
            let mut m = segment_label_of(s);
            push_str(&mut m, " entry ");
            push_dec(&mut m, i as u64);
            push_str(&mut m, ": entry_hash ");
            push_hex(&mut m, e.entry_hash.as_slice());
            push_str(&mut m, " does not match its recomputed hash");
            push_text(ps, m);
        }
        assert(texts(ps@) =~= before + entry_problems(*s, i as int));
        assert(texts(ps@) =~= b + seqs::flat_range(i + 1, f));
        prev_hash = e.entry_hash.as_slice();
        i = i + 1;
    }
}

/// Runs the chain-integrity check and returns its findings, in order.
pub fn chain_findings(r: &ElectionRecord) -> (ps: Vec<String>)
    ensures
        texts(ps@) == chain_problems(*r),
{
    let segs = &r.segments;
    let ks = order_keys(segs);
    let order = sort_keys(&ks);
    let ghost ov = keys::keys_view(order@);
    proof {
        keys::lemma_sorted_keys_members(segment_order_keys(segs@));
    }
    let mut ps: Vec<String> = Vec::new();
    let ghost f = |p: int| segment_problems(*r, p);
    assert(texts(ps@) =~= seqs::flat_range(0, f));
    let m = order.len();
    let nsegs = segs.len();
    let mut prev: Option<usize> = None;
    let mut p: usize = 0;
    while p < m
        invariant
            segs == &r.segments,
            nsegs == segs@.len(),
            m == order@.len(),
            ov == keys::keys_view(order@),
            ov == chain_order(segs@),
            forall|q: int| 0 <= q < ov.len() ==> segment_order_keys(segs@).contains(#[trigger] ov[q]),
            f == (|p: int| segment_problems(*r, p)),
            p <= m,
            match prev {
                None => p == 0,
                Some(q) => p > 0 && (q as int) < segs@.len() && segs@[q as int] == ordered_segment(
                    segs@,
                    p - 1,
                ),
            },
            texts(ps@) == seqs::flat_range(p as int, f),
        decreases m - p,
    {
        let k = &order[p];
        assert(ov[p as int] == k@);
        let ghost w = choose|w: int|
            0 <= w < segment_order_keys(segs@).len() && segment_order_keys(segs@)[w] == k@;
        assert(0 <= w < segs@.len());
        assert(segment_order_keys(segs@)[w] == segment_order_key(segs@[w], w));
        assert(k@.last() == w as u64);
        let j = k[k.len() - 1] as usize;
        assert(j as int == w);
        let s = &segs[j];
        assert(*s == ordered_segment(segs@, p as int));
        let ghost before = texts(ps@);
        let expected: &[u8] = match prev {
            Some(q) => {
                if segs[q].site_id == s.site_id {
                    segs[q].segment_head.as_slice()
                } else {
                    r.config.election_hash.as_slice()
                }
            },
            None => r.config.election_hash.as_slice(),
        };
        assert(expected@ == expected_previous_head(*r, p as int));
        if !bytes_eq(s.previous_segment_head.as_slice(), expected) {
            let mut t = segment_label_of(s);
            push_str(&mut t, ": previous_segment_head ");
            push_hex(&mut t, s.previous_segment_head.as_slice());
            push_str(&mut t, " does not chain from ");
            push_hex(&mut t, expected);
            push_text(&mut ps, t);
        }
        check_entries(&mut ps, s);
        let n = s.entries.len();
        let last: &[u8] = if n == 0 {
            s.previous_segment_head.as_slice()
        } else {
            s.entries[n - 1].entry_hash.as_slice()
        };
        if !bytes_eq(s.segment_head.as_slice(), last) {
            let mut t = segment_label_of(s);
            push_str(&mut t, ": segment_head ");
            push_hex(&mut t, s.segment_head.as_slice());
            push_str(&mut t, " does not equal the last entry hash ");
            push_hex(&mut t, last);
            push_text(&mut ps, t);
        }
        assert(texts(ps@) =~= before + segment_problems(*r, p as int));
        assert(texts(ps@) =~= seqs::flat_range(p + 1, f));
        prev = Some(j);
        p = p + 1;
    }
    ps
}

} // verus!
