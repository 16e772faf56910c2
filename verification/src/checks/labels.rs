//! How findings name the artifact they concern.

use crate::attestation::ChainHeadAttestation;
use crate::board::BoardSegment;
use crate::disposition::DispositionRecord;
use crate::tabulator::TabulatorReport;
use crate::text::{self, push_hex, push_str};
use vstd::prelude::*;

verus! {

/// `segment {site}/{day}`.
pub open spec fn segment_label(s: BoardSegment) -> Seq<char> {
    "segment "@ + s.site_id@ + "/"@ + s.day@
}

/// `attestation {site}/{day}`.
pub open spec fn attestation_label(a: ChainHeadAttestation) -> Seq<char> {
    "attestation "@ + a.site_id@ + "/"@ + a.day@
}

/// `disposition {subject hex}`.
pub open spec fn disposition_label(d: DispositionRecord) -> Seq<char> {
    "disposition "@ + text::hex_text(d.subject@)
}

/// `tabulator-report {site}/{tab}/{day}`.
pub open spec fn report_label(t: TabulatorReport) -> Seq<char> {
    "tabulator-report "@ + t.site_id@ + "/"@ + t.tab_id@ + "/"@ + t.day@
}

pub fn segment_label_of(s: &BoardSegment) -> (r: String)
    ensures
        r@ == segment_label(*s),
{
    let mut r = String::new();
    push_str(&mut r, "segment ");
    push_str(&mut r, s.site_id.as_str());
    push_str(&mut r, "/");
    push_str(&mut r, s.day.as_str());
    r
}

pub fn attestation_label_of(a: &ChainHeadAttestation) -> (r: String)
    ensures
        r@ == attestation_label(*a),
{
    let mut r = String::new();
    push_str(&mut r, "attestation ");
    push_str(&mut r, a.site_id.as_str());
    push_str(&mut r, "/");
    push_str(&mut r, a.day.as_str());
    r
}

pub fn disposition_label_of(d: &DispositionRecord) -> (r: String)
    ensures
        r@ == disposition_label(*d),
{
    let mut r = String::new();
    push_str(&mut r, "disposition ");
    push_hex(&mut r, d.subject.as_slice());
    r
}

pub fn report_label_of(t: &TabulatorReport) -> (r: String)
    ensures
        r@ == report_label(*t),
{
    let mut r = String::new();
    push_str(&mut r, "tabulator-report ");
    push_str(&mut r, t.site_id.as_str());
    push_str(&mut r, "/");
    push_str(&mut r, t.tab_id.as_str());
    push_str(&mut r, "/");
    push_str(&mut r, t.day.as_str());
    r
}

} // verus!
