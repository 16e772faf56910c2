//! Bulletin-board segments: the hash-chained, signed public record kept by
//! each polling place controller and published after close.

use crate::bytes::Bytes;
use crate::schema::{self, le64_bytes, CanonicalWriter};
use vstd::prelude::*;

verus! {

/// The kind of a bulletin entry.
#[derive(Debug, Clone, Copy, PartialEq, Eq, Structural)]
pub enum BulletinKind {
    /// A submitted (committed, not yet cast) ballot cryptogram.
    Submission,
    /// Publication of a session authorization at cast time.
    VoterAuthorization,
    /// A cast marker referencing an earlier submission.
    Cast,
    /// A spoil marker (Benaloh challenge or misprint void).
    Spoil,
}

impl BulletinKind {
    /// The stable single-byte tag of each kind.
    pub open spec fn spec_tag(self) -> u8 {
        match self {
            BulletinKind::Submission => 1,
            BulletinKind::VoterAuthorization => 2,
            BulletinKind::Cast => 3,
            BulletinKind::Spoil => 4,
        }
    }

    /// Stable single-byte tag used in the entry hash input.
    pub fn tag(self) -> (t: u8)
        ensures
            t == self.spec_tag(),
    {
        match self {
            BulletinKind::Submission => 1,
            BulletinKind::VoterAuthorization => 2,
            BulletinKind::Cast => 3,
            BulletinKind::Spoil => 4,
        }
    }
}

/// Flags qualifying an entry.
#[derive(Debug, Clone, Copy, PartialEq, Eq, Default, Structural)]
pub struct EntryFlags {
    /// The entry belongs to a provisional voting session (pended cryptogram).
    pub provisional: bool,
    /// The entry was produced during logic-and-accuracy testing.
    pub test: bool,
}

impl EntryFlags {
    /// Bit 0 is `provisional`, bit 1 is `test`.
    pub open spec fn spec_tag(self) -> u8 {
        ((if self.provisional { 1u8 } else { 0u8 }) + (if self.test { 2u8 } else { 0u8 })) as u8
    }

    /// Stable single-byte encoding used in the entry hash input.
    pub fn tag(self) -> (t: u8)
        ensures
            t == self.spec_tag(),
    {
        let p: u8 = if self.provisional { 1 } else { 0 };
        let t: u8 = if self.test { 2 } else { 0 };
        p + t
    }
}

/// One entry on a polling place's bulletin board.
#[derive(Debug, Clone, PartialEq, Eq)]
pub struct BulletinEntry {
    /// Entry kind.
    pub kind: BulletinKind,
    /// Entry flags.
    pub flags: EntryFlags,
    /// Kernel-encoded entry payload (opaque at schema level).
    pub payload: Bytes,
    /// For `Cast` and `Spoil` entries: the tracker (entry hash) of the
    /// `Submission` they refer to. Empty for other kinds.
    pub subject: Bytes,
    /// The previous entry's hash (chain linkage); for a site's first entry
    /// of the election this is the election hash.
    pub previous_hash: Bytes,
    /// This entry's hash: SHA3-256 over [`Self::hash_input`]. For
    /// submissions, this value is the voter's tracker.
    pub entry_hash: Bytes,
}

impl BulletinEntry {
    /// The fields of the entry hash input: kind tag, flags tag, payload,
    /// subject, previous hash.
    pub open spec fn spec_hash_fields(&self) -> Seq<Seq<u8>> {
        seq![
            seq![self.kind.spec_tag()],
            seq![self.flags.spec_tag()],
            self.payload@,
            self.subject@,
            self.previous_hash@,
        ]
    }

    /// The canonical input whose SHA3-256 hash is `entry_hash`.
    pub open spec fn spec_hash_input(&self) -> Seq<u8> {
        schema::canonical(crate::ds_tags::BULLETIN_ENTRY@, self.spec_hash_fields())
    }

    /// The canonical byte input whose SHA3-256 hash is `entry_hash`:
    /// kind tag, flags tag, payload, subject, previous hash, length-prefixed
    /// under the bulletin-entry domain tag.
    pub fn hash_input(&self) -> (r: Vec<u8>)
        ensures
            r@ == self.spec_hash_input(),
    {
        let mut w = CanonicalWriter::new(&crate::ds_tags::BULLETIN_ENTRY);
        let k = [self.kind.tag()];
        let f = [self.flags.tag()];
        assert(k@ =~= seq![self.kind.spec_tag()]);
        assert(f@ =~= seq![self.flags.spec_tag()]);
        w.field(&k);
        w.field(&f);
        w.field(self.payload.as_slice());
        w.field(self.subject.as_slice());
        w.field(self.previous_hash.as_slice());
        assert(w.fields() =~= self.spec_hash_fields());
        w.finish()
    }
}

/// One site's bulletin-board segment for one voting day, as uploaded after
/// close. A site's segments chain day to day via `previous_segment_head`.
#[derive(Debug, Clone, PartialEq, Eq)]
pub struct BoardSegment {
    /// Schema version of this artifact.
    pub schema_version: String,
    /// The election hash (binds the segment to the configuration).
    pub election_hash: Bytes,
    /// Site (polling place) identifier.
    pub site_id: String,
    /// Voting day, ISO-8601 date.
    pub day: String,
    /// The previous day's segment head for this site; the election hash for
    /// the site's first segment.
    pub previous_segment_head: Bytes,
    /// Entries in board order.
    pub entries: Vec<BulletinEntry>,
    /// The segment head: the last entry's hash, or `previous_segment_head`
    /// if the segment is empty.
    pub segment_head: Bytes,
    /// The controller's (DBB) Ed25519 verifying key (32 bytes).
    pub dbb_verifying_key: Bytes,
    /// DBB Ed25519 signature over [`Self::signing_input`].
    pub signature: Bytes,
}

impl BoardSegment {
    /// The fields the DBB signature covers: election hash, site, day,
    /// previous head, entry count (u64 LE), segment head.
    pub open spec fn spec_signing_fields(&self) -> Seq<Seq<u8>> {
        seq![
            self.election_hash@,
            schema::str_bytes(self.site_id@),
            schema::str_bytes(self.day@),
            self.previous_segment_head@,
            schema::le64(self.entries@.len() as u64),
            self.segment_head@,
        ]
    }

    /// The canonical input the DBB signature covers.
    pub open spec fn spec_signing_input(&self) -> Seq<u8> {
        schema::canonical(crate::ds_tags::BOARD_SEGMENT@, self.spec_signing_fields())
    }

    /// The canonical byte input the DBB signature covers. The entries are
    /// covered transitively through `segment_head`.
    pub fn signing_input(&self) -> (r: Vec<u8>)
        ensures
            r@ == self.spec_signing_input(),
    {
        let mut w = CanonicalWriter::new(&crate::ds_tags::BOARD_SEGMENT);
        let count = le64_bytes(self.entries.len() as u64);
        w.field(self.election_hash.as_slice());
        w.field(self.site_id.as_str().as_bytes());
        w.field(self.day.as_str().as_bytes());
        w.field(self.previous_segment_head.as_slice());
        w.field(count.as_slice());
        w.field(self.segment_head.as_slice());
        assert(w.fields() =~= self.spec_signing_fields());
        w.finish()
    }
}

} // verus!
