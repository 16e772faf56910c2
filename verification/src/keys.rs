//! Sort keys and the lexicographic order the checks report in.
//!
//! A key is a sequence of `u64`. Text and bytes become keys element by
//! element, each shifted up by one so that `0` can separate the parts of a
//! composite key; lexicographic order on such keys is then the order of the
//! tuples they encode.

use vstd::prelude::*;
use vstd::string::StrSliceExecFns;

verus! {

/// Lexicographic order on keys (a proper prefix comes first).
pub open spec fn key_lt(a: Seq<u64>, b: Seq<u64>) -> bool
    decreases a.len(),
{
    if a.len() == 0 {
        b.len() > 0
    } else if b.len() == 0 {
        false
    } else if a[0] < b[0] {
        true
    } else if a[0] > b[0] {
        false
    } else {
        key_lt(a.drop_first(), b.drop_first())
    }
}

/// The key of a text: each character's code point plus one.
pub open spec fn text_key(s: Seq<char>) -> Seq<u64> {
    s.map_values(|c: char| (c as u64 + 1) as u64)
}

/// The key of a byte string: each byte plus one.
pub open spec fn bytes_key(b: Seq<u8>) -> Seq<u64> {
    b.map_values(|x: u8| (x as u64 + 1) as u64)
}

/// The bytes a byte-string key stands for (each element minus one).
pub open spec fn key_bytes(k: Seq<u64>) -> Seq<u8> {
    k.map_values(|x: u64| if x >= 1 { ((x - 1) % 256) as u8 } else { 255u8 })
}

/// Decoding a byte-string key gives back its bytes.
pub proof fn lemma_key_bytes_of_bytes_key(b: Seq<u8>)
    ensures
        key_bytes(bytes_key(b)) == b,
{
    assert(key_bytes(bytes_key(b)) =~= b);
}

/// A composite key: `a`, a `0` separator, then `b`.
pub open spec fn join_key(a: Seq<u64>, b: Seq<u64>) -> Seq<u64> {
    a + seq![0u64] + b
}

/// `k` placed in the strictly increasing sequence `s` (left unchanged when
/// already present).
pub open spec fn insert_key(s: Seq<Seq<u64>>, k: Seq<u64>) -> Seq<Seq<u64>>
    decreases s.len(),
{
    if s.len() == 0 {
        seq![k]
    } else if key_lt(s[0], k) {
        seq![s[0]] + insert_key(s.drop_first(), k)
    } else if s[0] == k {
        s
    } else {
        seq![k] + s
    }
}

/// The distinct keys of `ks` in increasing order.
pub open spec fn sorted_keys(ks: Seq<Seq<u64>>) -> Seq<Seq<u64>>
    decreases ks.len(),
{
    if ks.len() == 0 {
        Seq::empty()
    } else {
        insert_key(sorted_keys(ks.drop_last()), ks.last())
    }
}

/// A single key is already sorted.
pub proof fn lemma_sorted_keys_one(k: Seq<u64>)
    ensures
        sorted_keys(seq![k]) == seq![k],
{
    assert(seq![k].drop_last() =~= Seq::<Seq<u64>>::empty());
    assert(sorted_keys(Seq::<Seq<u64>>::empty()) == Seq::<Seq<u64>>::empty());
}

/// Whether `a` comes before `b`.
pub fn key_less(a: &[u64], b: &[u64]) -> (r: bool)
    ensures
        r == key_lt(a@, b@),
{
    let n = a.len();
    let m = b.len();
    let mut i: usize = 0;
    assert(a@.skip(0) =~= a@);
    assert(b@.skip(0) =~= b@);
    while i < n && i < m && a[i] == b[i]
        invariant
            n == a@.len(),
            m == b@.len(),
            i <= n,
            i <= m,
            key_lt(a@, b@) == key_lt(a@.skip(i as int), b@.skip(i as int)),
        decreases n - i,
    {
        assert(a@.skip(i as int).drop_first() =~= a@.skip(i + 1));
        assert(b@.skip(i as int).drop_first() =~= b@.skip(i + 1));
        i = i + 1;
    }
    if i == n {
        i < m
    } else if i == m {
        false
    } else {
        a[i] < b[i]
    }
}

/// Whether two keys are equal.
pub fn key_eq(a: &[u64], b: &[u64]) -> (r: bool)
    ensures
        r == (a@ == b@),
{
    if a.len() != b.len() {
        return false;
    }
    let n = a.len();
    let mut i: usize = 0;
    while i < n
        invariant
            n == a@.len(),
            n == b@.len(),
            i <= n,
            forall|j: int| 0 <= j < i ==> a@[j] == b@[j],
        decreases n - i,
    {
        if a[i] != b[i] {
            return false;
        }
        i = i + 1;
    }
    assert(a@ =~= b@);
    true
}

proof fn lemma_insert_at(s: Seq<Seq<u64>>, k: Seq<u64>, p: int)
    requires
        0 <= p <= s.len(),
        forall|j: int| 0 <= j < p ==> key_lt(#[trigger] s[j], k),
        p < s.len() ==> !key_lt(s[p], k),
    ensures
        insert_key(s, k) == if p == s.len() {
            s.push(k)
        } else if s[p] == k {
            s
        } else {
            s.insert(p, k)
        },
    decreases s.len(),
{
    if s.len() == 0 {
        assert(seq![k] =~= s.push(k));
    } else if p == 0 {
        if s[0] != k {
            assert(seq![k] + s =~= s.insert(0, k));
        }
    } else {
        let t = s.drop_first();
        assert forall|j: int| 0 <= j < p - 1 implies key_lt(#[trigger] t[j], k) by {
            assert(t[j] == s[j + 1]);
        }
        lemma_insert_at(t, k, p - 1);
        if p == s.len() {
            assert(seq![s[0]] + t.push(k) =~= s.push(k));
        } else if s[p] == k {
            assert(seq![s[0]] + t =~= s);
        } else {
            assert(seq![s[0]] + t.insert(p - 1, k) =~= s.insert(p, k));
        }
    }
}

/// The keys held by a vector of keys.
pub open spec fn keys_view(v: Seq<Vec<u64>>) -> Seq<Seq<u64>> {
    v.map_values(|k: Vec<u64>| k@)
}

/// Inserts `k` into the strictly increasing list `v` unless present.
pub fn insert_sorted(v: &mut Vec<Vec<u64>>, k: Vec<u64>)
    ensures
        keys_view(final(v)@) == insert_key(keys_view(old(v)@), k@),
{
    let ghost s = keys_view(v@);
    let n = v.len();
    let mut p: usize = 0;
    while p < n && key_less(v[p].as_slice(), k.as_slice())
        invariant
            n == v@.len(),
            s == keys_view(v@),
            p <= n,
            forall|j: int| 0 <= j < p ==> key_lt(#[trigger] s[j], k@),
        decreases n - p,
    {
        p = p + 1;
    }
    proof {
        lemma_insert_at(s, k@, p as int);
    }
    if p == n {
        v.push(k);
        assert(keys_view(v@) =~= s.push(k@));
    } else if key_eq(v[p].as_slice(), k.as_slice()) {
    } else {
        let ghost kv = k@;
        v.insert(p, k);
        assert(keys_view(v@) =~= s.insert(p as int, kv));
    }
}

proof fn lemma_insert_key_members(s: Seq<Seq<u64>>, k: Seq<u64>)
    ensures
        forall|x: Seq<u64>| #[trigger] insert_key(s, k).contains(x) ==> s.contains(x) || x == k,
    decreases s.len(),
{
    if s.len() > 0 {
        lemma_insert_key_members(s.drop_first(), k);
        assert forall|x: Seq<u64>| #[trigger] insert_key(s, k).contains(x) implies s.contains(x) || x
            == k by {
            if key_lt(s[0], k) {
                let t = insert_key(s.drop_first(), k);
                let i = choose|i: int| 0 <= i < insert_key(s, k).len() && insert_key(s, k)[i] == x;
                if i > 0 {
                    assert(t[i - 1] == x);
                    assert(t.contains(x));
                    if s.drop_first().contains(x) {
                        let j = choose|j: int| 0 <= j < s.drop_first().len() && s.drop_first()[j] == x;
                        assert(s[j + 1] == x);
                    }
                } else {
                    assert(s[0] == x);
                }
            } else if s[0] == k {
            } else {
                let i = choose|i: int| 0 <= i < insert_key(s, k).len() && insert_key(s, k)[i] == x;
                if i > 0 {
                    assert(s[i - 1] == x);
                }
            }
        }
    }
}

/// Every key in `sorted_keys(ks)` is one of `ks`.
pub proof fn lemma_sorted_keys_members(ks: Seq<Seq<u64>>)
    ensures
        forall|p: int|
            0 <= p < sorted_keys(ks).len() ==> ks.contains(#[trigger] sorted_keys(ks)[p]),
    decreases ks.len(),
{
    if ks.len() > 0 {
        let prev = sorted_keys(ks.drop_last());
        lemma_sorted_keys_members(ks.drop_last());
        lemma_insert_key_members(prev, ks.last());
        assert forall|p: int| 0 <= p < sorted_keys(ks).len() implies ks.contains(
            #[trigger] sorted_keys(ks)[p],
        ) by {
            let x = sorted_keys(ks)[p];
            assert(sorted_keys(ks).contains(x));
            if prev.contains(x) {
                let q = choose|q: int| 0 <= q < prev.len() && prev[q] == x;
                assert(ks.drop_last().contains(x));
                let i = choose|i: int| 0 <= i < ks.drop_last().len() && ks.drop_last()[i] == x;
                assert(ks[i] == x);
            } else {
                assert(ks[ks.len() - 1] == x);
            }
        }
    }
}

/// The distinct keys of `ks` in increasing order.
pub fn sort_keys(ks: &Vec<Vec<u64>>) -> (s: Vec<Vec<u64>>)
    ensures
        keys_view(s@) == sorted_keys(keys_view(ks@)),
{
    let ghost kv = keys_view(ks@);
    let mut s: Vec<Vec<u64>> = Vec::new();
    let n = ks.len();
    let mut i: usize = 0;
    assert(keys_view(s@) =~= sorted_keys(kv.take(0)));
    while i < n
        invariant
            n == ks@.len(),
            kv == keys_view(ks@),
            i <= n,
            keys_view(s@) == sorted_keys(kv.take(i as int)),
        decreases n - i,
    {
        let mut k: Vec<u64> = Vec::new();
        k.extend_from_slice(ks[i].as_slice());
        assert(k@ =~= kv[i as int]);
        insert_sorted(&mut s, k);
        assert(kv.take(i + 1).drop_last() =~= kv.take(i as int));
        assert(kv.take(i + 1).last() == kv[i as int]);
        i = i + 1;
    }
    assert(kv.take(n as int) =~= kv);
    s
}

/// The key of a text.
pub fn text_key_of(s: &str) -> (k: Vec<u64>)
    ensures
        k@ == text_key(s@),
{
    let n = s.unicode_len();
    let mut k: Vec<u64> = Vec::new();
    let mut i: usize = 0;
    while i < n
        invariant
            n == s@.len(),
            i <= n,
            k@ == text_key(s@.take(i as int)),
        decreases n - i,
    {
        let c = s.get_char(i);
        k.push(c as u64 + 1);
        assert(k@ =~= text_key(s@.take(i + 1)));
        i = i + 1;
    }
    assert(s@.take(n as int) =~= s@);
    k
}

/// Appends the key of a text to `k`.
pub fn push_text_key(k: &mut Vec<u64>, s: &str)
    ensures
        final(k)@ == old(k)@ + text_key(s@),
{
    let mut t = text_key_of(s);
    k.append(&mut t);
}

/// The bytes a byte-string key stands for.
pub fn key_bytes_of(k: &[u64]) -> (b: Vec<u8>)
    ensures
        b@ == key_bytes(k@),
{
    let n = k.len();
    let mut b: Vec<u8> = Vec::new();
    let mut i: usize = 0;
    while i < n
        invariant
            n == k@.len(),
            i <= n,
            b@ == key_bytes(k@.take(i as int)),
        decreases n - i,
    {
        let x = k[i];
        let y: u8 = if x >= 1 { ((x - 1) % 256) as u8 } else { 255u8 };
        b.push(y);
        assert(b@ =~= key_bytes(k@.take(i + 1)));
        i = i + 1;
    }
    assert(k@.take(n as int) =~= k@);
    b
}

/// The key of a byte string.
pub fn bytes_key_of(b: &[u8]) -> (k: Vec<u64>)
    ensures
        k@ == bytes_key(b@),
{
    let mut k: Vec<u64> = Vec::new();
    push_bytes_key(&mut k, b);
    assert(k@ =~= bytes_key(b@));
    k
}

/// Appends the key of a byte string to `k`.
pub fn push_bytes_key(k: &mut Vec<u64>, b: &[u8])
    ensures
        final(k)@ == old(k)@ + bytes_key(b@),
{
    let ghost start = k@;
    let n = b.len();
    let mut i: usize = 0;
    while i < n
        invariant
            n == b@.len(),
            i <= n,
            k@ == start + bytes_key(b@.take(i as int)),
        decreases n - i,
    {
        k.push(b[i] as u64 + 1);
        assert(k@ =~= start + bytes_key(b@.take(i + 1)));
        i = i + 1;
    }
    assert(b@.take(n as int) =~= b@);
}

} // verus!
