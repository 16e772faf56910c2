//! Schema versioning and the canonical byte inputs that every signed or
//! hashed artifact is defined over.

use vstd::prelude::*;
use vstd::string::StrSliceExecFns;

verus! {

/// The schema version written by this crate.
///
/// Verifiers accept any record whose version has the same major component.
pub const SCHEMA_VERSION: &'static str = "0.1.0";

/// The major component of a version string: everything before the first
/// `'.'` (the whole string if it has none).
pub open spec fn major_component(v: Seq<char>) -> Seq<char>
    decreases v.len(),
{
    if v.len() == 0 || v[0] == '.' {
        Seq::empty()
    } else {
        seq![v[0]] + major_component(v.drop_first())
    }
}

/// A version is acceptable when its major component equals that of
/// [`SCHEMA_VERSION`] (within a major version the schema is additive-only).
pub open spec fn spec_version_compatible(v: Seq<char>) -> bool {
    major_component(v) == major_component(SCHEMA_VERSION@)
}

proof fn lemma_major_is_prefix(v: Seq<char>, k: int)
    requires
        0 <= k <= v.len(),
        forall|j: int| 0 <= j < k ==> v[j] != '.',
        k == v.len() || v[k] == '.',
    ensures
        major_component(v) == v.take(k),
    decreases v.len(),
{
    if k > 0 {
        lemma_major_is_prefix(v.drop_first(), k - 1);
        assert(v.take(k) =~= seq![v[0]] + v.drop_first().take(k - 1));
    } else {
        assert(v.take(k) =~= Seq::<char>::empty());
    }
}

fn major_len(v: &str) -> (n: usize)
    ensures
        n <= v@.len(),
        major_component(v@) == v@.take(n as int),
{
    let len = v.unicode_len();
    let mut i: usize = 0;
    while i < len && v.get_char(i) != '.'
        invariant
            len == v@.len(),
            i <= len,
            forall|j: int| 0 <= j < i ==> v@[j] != '.',
        decreases len - i,
    {
        i = i + 1;
    }
    proof {
        lemma_major_is_prefix(v@, i as int);
    }
    i
}

/// Returns true when `version` is acceptable to a verifier built against
/// this crate: same major version.
pub fn version_compatible(version: &str) -> (r: bool)
    ensures
        r == spec_version_compatible(version@),
{
    let a = major_len(version);
    let b = major_len(SCHEMA_VERSION);
    if a != b {
        return false;
    }
    let mut i: usize = 0;
    while i < a
        invariant
            a == b,
            a <= version@.len(),
            b <= SCHEMA_VERSION@.len(),
            major_component(version@) == version@.take(a as int),
            major_component(SCHEMA_VERSION@) == SCHEMA_VERSION@.take(b as int),
            i <= a,
            forall|j: int| 0 <= j < i ==> version@[j] == SCHEMA_VERSION@[j],
        decreases a - i,
    {
        if version.get_char(i) != SCHEMA_VERSION.get_char(i) {
            assert(major_component(version@)[i as int] != major_component(SCHEMA_VERSION@)[i as int]);
            return false;
        }
        i = i + 1;
    }
    assert(major_component(version@) =~= major_component(SCHEMA_VERSION@));
    true
}

/// Length-prefixed encoding of one field: its length as a little-endian
/// `u64`, then its bytes.
pub open spec fn field_encoding(f: Seq<u8>) -> Seq<u8> {
    vstd::bytes::spec_u64_to_le_bytes(f.len() as u64) + f
}

/// The concatenated encodings of a list of fields, in order.
pub open spec fn fields_encoding(fs: Seq<Seq<u8>>) -> Seq<u8>
    decreases fs.len(),
{
    if fs.len() == 0 {
        Seq::empty()
    } else {
        fields_encoding(fs.drop_last()) + field_encoding(fs.last())
    }
}

/// The canonical input `tag || (len_u64_le || field)*`.
pub open spec fn canonical(tag: Seq<u8>, fs: Seq<Seq<u8>>) -> Seq<u8> {
    tag + fields_encoding(fs)
}

/// The bytes of a text field: its UTF-8 encoding.
pub open spec fn str_bytes(s: Seq<char>) -> Seq<u8> {
    vstd::utf8::encode_utf8(s)
}

/// The bytes of an integer field: its little-endian `u64` encoding.
pub open spec fn le64(x: u64) -> Seq<u8> {
    vstd::bytes::spec_u64_to_le_bytes(x)
}

/// The bytes of a 32-bit integer field: its little-endian `u32` encoding.
pub open spec fn le32(x: u32) -> Seq<u8> {
    vstd::bytes::spec_u32_to_le_bytes(x)
}

/// The fields that `f` gives for each element of `s`, concatenated in order.
pub open spec fn concat_map<A>(s: Seq<A>, f: spec_fn(A) -> Seq<Seq<u8>>) -> Seq<Seq<u8>>
    decreases s.len(),
{
    if s.len() == 0 {
        Seq::empty()
    } else {
        concat_map(s.drop_last(), f) + f(s.last())
    }
}

pub proof fn lemma_concat_map_step<A>(s: Seq<A>, f: spec_fn(A) -> Seq<Seq<u8>>, i: int)
    requires
        0 <= i < s.len(),
    ensures
        concat_map(s.take(i + 1), f) == concat_map(s.take(i), f) + f(s[i]),
{
    assert(s.take(i + 1).drop_last() =~= s.take(i));
}

pub proof fn lemma_concat_map_all<A>(s: Seq<A>, f: spec_fn(A) -> Seq<Seq<u8>>)
    ensures
        concat_map(s.take(s.len() as int), f) == concat_map(s, f),
{
    assert(s.take(s.len() as int) =~= s);
}

/// The `u64` little-endian bytes of `x`.
pub fn le64_bytes(x: u64) -> (r: Vec<u8>)
    ensures
        r@ == le64(x),
{
    vstd::bytes::u64_to_le_bytes(x)
}

/// The `u32` little-endian bytes of `x`.
pub fn le32_bytes(x: u32) -> (r: Vec<u8>)
    ensures
        r@ == le32(x),
{
    vstd::bytes::u32_to_le_bytes(x)
}

/// Accumulates a canonical input field by field.
pub struct CanonicalWriter {
    out: Vec<u8>,
    tag: Ghost<Seq<u8>>,
    fields: Ghost<Seq<Seq<u8>>>,
}

impl CanonicalWriter {
    /// The tag the input starts with.
    pub closed spec fn tag(&self) -> Seq<u8> {
        self.tag@
    }

    /// The fields written so far, in order.
    pub closed spec fn fields(&self) -> Seq<Seq<u8>> {
        self.fields@
    }

    /// The bytes written so far are the canonical input of the tag and the
    /// fields.
    pub closed spec fn wf(&self) -> bool {
        self.out@ == canonical(self.tag@, self.fields@)
    }

    /// Starts an input with `tag` and no fields.
    pub fn new(tag: &[u8]) -> (w: Self)
        ensures
            w.wf(),
            w.tag() == tag@,
            w.fields() == Seq::<Seq<u8>>::empty(),
    {
        let mut out: Vec<u8> = Vec::new();
        out.extend_from_slice(tag);
        let w = CanonicalWriter { out, tag: Ghost(tag@), fields: Ghost(Seq::empty()) };
        assert(w.out@ =~= canonical(tag@, Seq::empty()));
        w
    }

    /// Appends one field.
    pub fn field(&mut self, f: &[u8])
        requires
            old(self).wf(),
        ensures
            final(self).wf(),
            final(self).tag() == old(self).tag(),
            final(self).fields() == old(self).fields().push(f@),
    {
        push_field(&mut self.out, f);
        let ghost fs = self.fields@.push(f@);
        assert(fs.drop_last() =~= self.fields@);
        self.fields = Ghost(fs);
        assert(self.out@ =~= canonical(self.tag@, self.fields@));
    }

    /// The finished input.
    pub fn finish(self) -> (r: Vec<u8>)
        requires
            self.wf(),
        ensures
            r@ == canonical(self.tag(), self.fields()),
    {
        self.out
    }
}

/// Appends one length-prefixed field.
pub fn push_field(out: &mut Vec<u8>, f: &[u8])
    ensures
        final(out)@ == old(out)@ + field_encoding(f@),
{
    let len = vstd::bytes::u64_to_le_bytes(f.len() as u64);
    out.extend_from_slice(len.as_slice());
    out.extend_from_slice(f);
    assert(final(out)@ =~= old(out)@ + field_encoding(f@));
}

/// Length-prefixed field concatenation used by every canonical input in this
/// schema: `tag || (len_u64_le || field)*`.
pub fn canonical_input(tag: &[u8], fields: &[&[u8]]) -> (r: Vec<u8>)
    ensures
        r@ == canonical(tag@, fields@.map_values(|f: &[u8]| f@)),
{
    let ghost fs = fields@.map_values(|f: &[u8]| f@);
    let mut out: Vec<u8> = Vec::new();
    out.extend_from_slice(tag);
    assert(out@ =~= tag@);
    let n = fields.len();
    let mut i: usize = 0;
    while i < n
        invariant
            n == fields@.len(),
            fs == fields@.map_values(|f: &[u8]| f@),
            i <= n,
            out@ == canonical(tag@, fs.take(i as int)),
        decreases n - i,
    {
        push_field(&mut out, fields[i]);
        assert(fs.take(i + 1).drop_last() =~= fs.take(i as int));
        i = i + 1;
    }
    assert(fs.take(n as int) =~= fs);
    out
}

/// Every field fits the `u64` length prefix.
pub open spec fn fields_fit(fs: Seq<Seq<u8>>) -> bool {
    forall|i: int| 0 <= i < fs.len() ==> #[trigger] fs[i].len() <= u64::MAX
}

proof fn lemma_fields_encoding_concat(a: Seq<Seq<u8>>, b: Seq<Seq<u8>>)
    ensures
        fields_encoding(a + b) == fields_encoding(a) + fields_encoding(b),
    decreases b.len(),
{
    if b.len() == 0 {
        assert(a + b =~= a);
        assert(fields_encoding(b) =~= Seq::<u8>::empty());
        assert(fields_encoding(a) + fields_encoding(b) =~= fields_encoding(a));
    } else {
        lemma_fields_encoding_concat(a, b.drop_last());
        assert((a + b).drop_last() =~= a + b.drop_last());
        assert((a + b).last() == b.last());
        assert(fields_encoding(a + b) =~= fields_encoding(a) + fields_encoding(b));
    }
}

proof fn lemma_fields_encoding_front(fs: Seq<Seq<u8>>)
    requires
        fs.len() > 0,
    ensures
        fields_encoding(fs) == field_encoding(fs[0]) + fields_encoding(fs.drop_first()),
{
    let head = seq![fs[0]];
    lemma_fields_encoding_concat(head, fs.drop_first());
    assert(head + fs.drop_first() =~= fs);
    assert(head.drop_last() =~= Seq::<Seq<u8>>::empty());
    assert(head.last() == fs[0]);
    assert(fields_encoding(head.drop_last()) =~= Seq::<u8>::empty());
    assert(fields_encoding(head) =~= fields_encoding(head.drop_last()) + field_encoding(head.last()));
    assert(fields_encoding(head) =~= field_encoding(fs[0]));
}

proof fn lemma_field_encoding_len(f: Seq<u8>)
    ensures
        field_encoding(f).len() == 8 + f.len(),
{
    vstd::bytes::lemma_auto_spec_u64_to_from_le_bytes();
}

/// The field encoding is unambiguous: two field lists (whose lengths fit the
/// `u64` prefix) with the same encoding are the same list.
pub proof fn lemma_fields_encoding_injective(a: Seq<Seq<u8>>, b: Seq<Seq<u8>>)
    requires
        fields_fit(a),
        fields_fit(b),
        fields_encoding(a) == fields_encoding(b),
    ensures
        a == b,
    decreases a.len(),
{
    vstd::bytes::lemma_auto_spec_u64_to_from_le_bytes();
    if a.len() == 0 {
        assert(fields_encoding(a).len() == 0);
        if b.len() > 0 {
            lemma_fields_encoding_front(b);
            lemma_field_encoding_len(b[0]);
            assert(fields_encoding(b).len() >= 8);
        }
        assert(a =~= b);
    } else if b.len() == 0 {
        assert(fields_encoding(b).len() == 0);
        lemma_fields_encoding_front(a);
        lemma_field_encoding_len(a[0]);
        assert(fields_encoding(a).len() >= 8);
    } else {
        lemma_fields_encoding_front(a);
        lemma_fields_encoding_front(b);
        let e = fields_encoding(a);
        let la = vstd::bytes::spec_u64_to_le_bytes(a[0].len() as u64);
        let lb = vstd::bytes::spec_u64_to_le_bytes(b[0].len() as u64);
        assert(la == e.take(8));
        assert(lb == e.take(8));
        assert(a[0].len() == vstd::bytes::spec_u64_from_le_bytes(la));
        assert(b[0].len() == vstd::bytes::spec_u64_from_le_bytes(lb));
        let n = a[0].len() as int;
        assert(a[0] =~= e.subrange(8, 8 + n));
        assert(b[0] =~= e.subrange(8, 8 + n));
        assert(fields_encoding(a.drop_first()) =~= e.skip(8 + n));
        assert(fields_encoding(b.drop_first()) =~= e.skip(8 + n));
        assert(fields_fit(a.drop_first())) by {
            assert forall|i: int| 0 <= i < a.drop_first().len() implies #[trigger] a.drop_first()[i].len()
                <= u64::MAX by {
                assert(a.drop_first()[i] == a[i + 1]);
            }
        }
        assert(fields_fit(b.drop_first())) by {
            assert forall|i: int| 0 <= i < b.drop_first().len() implies #[trigger] b.drop_first()[i].len()
                <= u64::MAX by {
                assert(b.drop_first()[i] == b[i + 1]);
            }
        }
        lemma_fields_encoding_injective(a.drop_first(), b.drop_first());
        assert(a =~= seq![a[0]] + a.drop_first());
        assert(b =~= seq![b[0]] + b.drop_first());
    }
}

/// Canonical inputs are boundary-unambiguous: under one tag, two different
/// field lists never give the same byte string.
pub proof fn lemma_canonical_injective(tag: Seq<u8>, a: Seq<Seq<u8>>, b: Seq<Seq<u8>>)
    requires
        fields_fit(a),
        fields_fit(b),
        canonical(tag, a) == canonical(tag, b),
    ensures
        a == b,
{
    assert(fields_encoding(a) =~= canonical(tag, a).skip(tag.len() as int));
    assert(fields_encoding(b) =~= canonical(tag, b).skip(tag.len() as int));
    lemma_fields_encoding_injective(a, b);
}

/// Neither tag is a prefix of the other.
pub open spec fn tags_separate(t1: Seq<u8>, t2: Seq<u8>) -> bool {
    exists|i: int| 0 <= i < t1.len() && i < t2.len() && t1[i] != t2[i]
}

/// Domain separation: inputs under two tags of which neither is a prefix of
/// the other never coincide, whatever their fields.
pub proof fn lemma_canonical_domain_separated(
    t1: Seq<u8>,
    t2: Seq<u8>,
    a: Seq<Seq<u8>>,
    b: Seq<Seq<u8>>,
)
    requires
        tags_separate(t1, t2),
    ensures
        canonical(t1, a) != canonical(t2, b),
{
    let i = choose|i: int| 0 <= i < t1.len() && i < t2.len() && t1[i] != t2[i];
    assert(canonical(t1, a)[i] == t1[i]);
    assert(canonical(t2, b)[i] == t2[i]);
}

/// The seven domain-separation tags of this schema are pairwise separate.
pub proof fn lemma_ds_tags_separate()
    ensures
        ({
            let tags = seq![
                crate::ds_tags::BULLETIN_ENTRY@,
                crate::ds_tags::BOARD_SEGMENT@,
                crate::ds_tags::ATTESTATION@,
                crate::ds_tags::DISPOSITION@,
                crate::ds_tags::TABULATOR_REPORT@,
                crate::ds_tags::CONFIG@,
                crate::ds_tags::TRANSCRIPT@,
            ];
            forall|i: int, j: int|
                0 <= i < 7 && 0 <= j < 7 && i != j ==> tags_separate(#[trigger] tags[i], #[trigger] tags[j])
        }),
{
    let tags = seq![
        crate::ds_tags::BULLETIN_ENTRY@,
        crate::ds_tags::BOARD_SEGMENT@,
        crate::ds_tags::ATTESTATION@,
        crate::ds_tags::DISPOSITION@,
        crate::ds_tags::TABULATOR_REPORT@,
        crate::ds_tags::CONFIG@,
        crate::ds_tags::TRANSCRIPT@,
    ];
    // Position of the first difference between each pair.
    assert forall|i: int, j: int| 0 <= i < 7 && 0 <= j < 7 && i != j implies tags_separate(
        #[trigger] tags[i],
        #[trigger] tags[j],
    ) by {
        let k: int = if (i == 0 && j == 1) || (i == 1 && j == 0) {
            9
        } else if (i == 4 && j == 6) || (i == 6 && j == 4) {
            10
        } else {
            8
        };
        assert(tags[i][k] != tags[j][k]);
    }
}

} // verus!
