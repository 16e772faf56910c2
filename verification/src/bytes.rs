//! Byte strings, rendered and parsed as hex.

use crate::text::{self, push_debug, push_dec, push_hex, push_str};
use vstd::prelude::*;

verus! {

/// An owned byte string; its text form is lowercase hex.
///
/// Used for hashes (32 bytes), Ed25519 verifying keys (32 bytes) and
/// signatures (64 bytes), and opaque kernel-encoded payloads (any length).
/// Length constraints are enforced by the consuming checks, not by the type.
#[derive(Clone, Debug, Hash, Default)]
pub struct Bytes(pub Vec<u8>);

impl View for Bytes {
    type V = Seq<u8>;

    open spec fn view(&self) -> Seq<u8> {
        self.0@
    }
}

/// Byte-wise equality of two byte slices.
pub fn bytes_eq(a: &[u8], b: &[u8]) -> (r: bool)
    ensures
        r == (a@ == b@),
{
    if a.len() != b.len() {
        return false;
    }
    let n = a.len();
    let mut i: usize = 0;
    while i < n
        invariant
            n == a@.len(),
            n == b@.len(),
            i <= n,
            forall|j: int| 0 <= j < i ==> a@[j] == b@[j],
        decreases n - i,
    {
        if a[i] != b[i] {
            return false;
        }
        i = i + 1;
    }
    assert(a@ =~= b@);
    true
}

impl Bytes {
    /// Wraps a byte vector.
    pub fn new(v: Vec<u8>) -> (r: Self)
        ensures
            r@ == v@,
    {
        Bytes(v)
    }

    /// The contained bytes.
    pub fn as_slice(&self) -> (r: &[u8])
        ensures
            r@ == self@,
    {
        self.0.as_slice()
    }

    /// A copy with the same contents.
    pub fn duplicate(&self) -> (r: Self)
        ensures
            r@ == self@,
    {
        let mut v: Vec<u8> = Vec::with_capacity(self.0.len());
        v.extend_from_slice(self.0.as_slice());
        assert(v@ =~= self.0@);
        Bytes(v)
    }
}

/// The value of an ASCII hex digit (either case), if `c` is one.
pub open spec fn hex_value(c: u8) -> Option<u8> {
    if 48 <= c <= 57 {
        Some((c - 48) as u8)
    } else if 97 <= c <= 102 {
        Some((c - 87) as u8)
    } else if 65 <= c <= 70 {
        Some((c - 55) as u8)
    } else {
        None
    }
}

/// Whether `c` is an ASCII hex digit.
pub open spec fn is_hex_byte(c: u8) -> bool {
    hex_value(c) is Some
}

/// The bytes that an even-length string of hex digits denotes, two digits
/// per byte, high nibble first.
pub open spec fn hex_decode(t: Seq<u8>) -> Seq<u8> {
    Seq::new(
        (t.len() / 2) as nat,
        |j: int| (hex_value(t[2 * j]).unwrap() * 16 + hex_value(t[2 * j + 1]).unwrap()) as u8,
    )
}

/// The offset of the first byte of `t` that is not a hex digit.
pub open spec fn first_non_hex(t: Seq<u8>) -> int {
    choose|k: int|
        0 <= k < t.len() && !is_hex_byte(t[k]) && forall|j: int| 0 <= j < k ==> is_hex_byte(t[j])
}

/// The error text for an odd number of hex characters.
pub open spec fn odd_length_text(len: nat) -> Seq<char> {
    "odd-length hex string ("@ + text::dec_text(len) + " chars)"@
}

/// The error text for a non-hex character at byte offset `i` of `s`.
pub open spec fn bad_char_text(s: Seq<char>, i: nat) -> Seq<char> {
    "invalid hex character at offset "@ + text::dec_text(i) + " in "@ + text::debug_text(s)
}

/// What parsing the text `s` as hex gives: the decoded bytes, or the error
/// text for an odd byte length or for the first non-hex byte.
pub open spec fn spec_from_hex(s: Seq<char>) -> Result<Seq<u8>, Seq<char>> {
    let t = vstd::utf8::encode_utf8(s);
    if t.len() % 2 == 1 {
        Err(odd_length_text(t.len()))
    } else if exists|i: int| 0 <= i < t.len() && !is_hex_byte(#[trigger] t[i]) {
        Err(bad_char_text(s, first_non_hex(t) as nat))
    } else {
        Ok(hex_decode(t))
    }
}

fn hex_val(c: u8) -> (r: Option<u8>)
    ensures
        r == hex_value(c),
{
    if 48 <= c && c <= 57 {
        Some(c - 48)
    } else if 97 <= c && c <= 102 {
        Some(c - 87)
    } else if 65 <= c && c <= 70 {
        Some(c - 55)
    } else {
        None
    }
}

fn bad_char(s: &str, i: usize) -> (r: String)
    ensures
        r@ == bad_char_text(s@, i as nat),
{
    let mut out = String::new();
    push_str(&mut out, "invalid hex character at offset ");
    push_dec(&mut out, i as u64);
    push_str(&mut out, " in ");
    push_debug(&mut out, s);
    out
}

impl Bytes {
    /// Lowercase hex rendering (the JSON form).
    pub fn to_hex(&self) -> (r: String)
        ensures
            r@ == text::hex_text(self@),
    {
        let mut s = String::new();
        push_hex(&mut s, self.0.as_slice());
        s
    }

    /// Parses lowercase or uppercase hex.
    ///
    /// Fails on an odd number of bytes, and otherwise at the first byte that
    /// is not a hex digit, naming its byte offset.
    pub fn from_hex(s: &str) -> (r: Result<Self, String>)
        ensures
            match r {
                Ok(v) => spec_from_hex(s@) == Ok::<Seq<u8>, Seq<char>>(v@),
                Err(e) => spec_from_hex(s@) == Err::<Seq<u8>, Seq<char>>(e@),
            },
    {
        let bytes = s.as_bytes();
        let n = bytes.len();
        if n % 2 != 0 {
            let mut e = String::new();
            push_str(&mut e, "odd-length hex string (");
            push_dec(&mut e, n as u64);
            push_str(&mut e, " chars)");
            return Err(e);
        }
        let ghost t = bytes@;
        let mut out: Vec<u8> = Vec::with_capacity(n / 2);
        let mut i: usize = 0;
        while i < n
            invariant
                t == bytes@,
                t == vstd::utf8::encode_utf8(s@),
                n == t.len(),
                n % 2 == 0,
                i <= n,
                i % 2 == 0,
                out@.len() == i / 2,
                forall|j: int| 0 <= j < i ==> is_hex_byte(#[trigger] t[j]),
                forall|j: int| 0 <= j < i / 2 ==> out@[j] == #[trigger] hex_decode(t)[j],
            decreases n - i,
        {
            let hi = match hex_val(bytes[i]) {
                Some(v) => v,
                None => {
                    let ghost k = first_non_hex(t);
                    assert(!is_hex_byte(t[i as int]));
                    assert(k == i);
                    return Err(bad_char(s, i));
                },
            };
            let lo = match hex_val(bytes[i + 1]) {
                Some(v) => v,
                None => {
                    let ghost k = first_non_hex(t);
                    assert(!is_hex_byte(t[i + 1]));
                    assert(forall|j: int| 0 <= j < i + 1 ==> is_hex_byte(#[trigger] t[j]));
                    assert(k == i + 1);
                    return Err(bad_char(s, i + 1));
                },
            };
            out.push(hi * 16 + lo);
            assert(hex_decode(t)[(i / 2) as int] == (hi * 16 + lo) as u8);
            i = i + 2;
        }
        assert(out@ =~= hex_decode(t));
        Ok(Bytes(out))
    }
}

/// The hex rendering has two characters per byte: byte `j` becomes the
/// lowercase digits of its high and low nibbles, at positions `2j` and
/// `2j + 1`.
pub proof fn lemma_hex_text_shape(b: Seq<u8>)
    ensures
        text::hex_text(b).len() == 2 * b.len(),
        forall|j: int|
            #![trigger b[j]]
            0 <= j < b.len() ==> text::hex_text(b)[2 * j] == text::hex_digit((b[j] / 16) as int) && text::hex_text(
                b,
            )[2 * j + 1] == text::hex_digit((b[j] % 16) as int),
    decreases b.len(),
{
    if b.len() > 0 {
        lemma_hex_text_shape(b.drop_last());
        assert forall|j: int| 0 <= j < b.len() implies text::hex_text(b)[2 * j] == text::hex_digit(
            (b[j] / 16) as int,
        ) && text::hex_text(b)[2 * j + 1] == text::hex_digit((b[j] % 16) as int) by {
            if j < b.len() - 1 {
                assert(b.drop_last()[j] == b[j]);
            }
        }
    }
}

proof fn lemma_hex_digit_value(d: int)
    requires
        0 <= d < 16,
    ensures
        text::hex_digit(d) <= '\u{7f}',
        hex_value(text::hex_digit(d) as u8) == Some(d as u8),
{
}

/// Hex rendering round-trips: parsing the text that `to_hex` produces gives
/// back the same bytes.
pub proof fn lemma_hex_round_trip(b: Seq<u8>)
    ensures
        spec_from_hex(text::hex_text(b)) == Ok::<Seq<u8>, Seq<char>>(b),
{
    let h = text::hex_text(b);
    lemma_hex_text_shape(b);
    assert forall|i: int| 0 <= i < h.len() implies '\0' <= #[trigger] h[i] <= '\u{7f}' && is_hex_byte(
        h[i] as u8,
    ) by {
        let j = i / 2;
        assert(0 <= j < b.len());
        lemma_hex_digit_value((b[j] / 16) as int);
        lemma_hex_digit_value((b[j] % 16) as int);
        if i % 2 == 0 {
            assert(i == 2 * j);
        } else {
            assert(i == 2 * j + 1);
        }
    }
    assert(vstd::utf8::is_ascii_chars(h));
    vstd::utf8::is_ascii_chars_encode_utf8(h);
    let t = vstd::utf8::encode_utf8(h);
    assert(!(exists|i: int| 0 <= i < t.len() && !is_hex_byte(#[trigger] t[i])));
    assert forall|j: int| 0 <= j < b.len() implies #[trigger] hex_decode(t)[j] == b[j] by {
        lemma_hex_digit_value((b[j] / 16) as int);
        lemma_hex_digit_value((b[j] % 16) as int);
        assert(t[2 * j] == h[2 * j] as u8);
        assert(t[2 * j + 1] == h[2 * j + 1] as u8);
    }
    assert(hex_decode(t) =~= b);
}

impl PartialEq for Bytes {
    fn eq(&self, other: &Self) -> (r: bool) {
        bytes_eq(self.0.as_slice(), other.0.as_slice())
    }
}

impl Eq for Bytes {
}

impl vstd::std_specs::cmp::PartialEqSpecImpl for Bytes {
    open spec fn obeys_eq_spec() -> bool {
        true
    }

    open spec fn eq_spec(&self, other: &Self) -> bool {
        self@ == other@
    }
}

} // verus!
