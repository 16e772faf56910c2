//! Sequences built element by element.

use vstd::prelude::*;

verus! {

/// The sequences that `f` gives for each element of `s`, concatenated in
/// order.
pub open spec fn flat_map<A, B>(s: Seq<A>, f: spec_fn(A) -> Seq<B>) -> Seq<B>
    decreases s.len(),
{
    if s.len() == 0 {
        Seq::empty()
    } else {
        flat_map(s.drop_last(), f) + f(s.last())
    }
}

/// Extending a prefix by one element appends what `f` gives for it.
pub proof fn lemma_flat_map_step<A, B>(s: Seq<A>, f: spec_fn(A) -> Seq<B>, i: int)
    requires
        0 <= i < s.len(),
    ensures
        flat_map(s.take(i + 1), f) == flat_map(s.take(i), f) + f(s[i]),
{
    assert(s.take(i + 1).drop_last() =~= s.take(i));
}

/// The longest prefix is the whole sequence.
pub proof fn lemma_flat_map_all<A, B>(s: Seq<A>, f: spec_fn(A) -> Seq<B>)
    ensures
        flat_map(s.take(s.len() as int), f) == flat_map(s, f),
{
    assert(s.take(s.len() as int) =~= s);
}

/// Over a single element, `flat_map` is `f` of that element.
pub proof fn lemma_flat_map_one<A, B>(s: Seq<A>, f: spec_fn(A) -> Seq<B>)
    requires
        s.len() == 1,
    ensures
        flat_map(s, f) == f(s[0]),
{
    assert(s.drop_last().len() == 0);
    assert(flat_map(s.drop_last(), f) == Seq::<B>::empty());
    assert(s.last() == s[0]);
    assert(flat_map(s, f) =~= f(s[0]));
}

/// The sequences that `f` gives for each index below `n`, concatenated in
/// order.
pub open spec fn flat_range<B>(n: int, f: spec_fn(int) -> Seq<B>) -> Seq<B>
    decreases n,
{
    if n <= 0 {
        Seq::empty()
    } else {
        flat_range(n - 1, f) + f(n - 1)
    }
}

/// When `f` gives nothing for every index below `n`, neither does
/// `flat_range`.
pub proof fn lemma_flat_range_none<B>(n: int, f: spec_fn(int) -> Seq<B>)
    requires
        forall|i: int| 0 <= i < n ==> (#[trigger] f(i)).len() == 0,
    ensures
        flat_range(n, f) == Seq::<B>::empty(),
    decreases n,
{
    if n > 0 {
        lemma_flat_range_none(n - 1, f);
        assert(flat_range(n, f) =~= Seq::<B>::empty());
    }
}

/// When `f` gives nothing for every element of `s`, neither does
/// `flat_map`.
pub proof fn lemma_flat_map_none<A, B>(s: Seq<A>, f: spec_fn(A) -> Seq<B>)
    requires
        forall|i: int| 0 <= i < s.len() ==> (#[trigger] f(s[i])).len() == 0,
    ensures
        flat_map(s, f) == Seq::<B>::empty(),
    decreases s.len(),
{
    if s.len() > 0 {
        assert forall|i: int| 0 <= i < s.drop_last().len() implies (#[trigger] f(
            s.drop_last()[i],
        )).len() == 0 by {
            assert(s.drop_last()[i] == s[i]);
        }
        lemma_flat_map_none(s.drop_last(), f);
        assert(f(s[s.len() - 1]).len() == 0);
        assert(flat_map(s, f) =~= Seq::<B>::empty());
    }
}

/// Whatever `flat_map` gives comes from `f` of some element.
pub proof fn lemma_flat_map_member<A, B>(s: Seq<A>, f: spec_fn(A) -> Seq<B>, x: B)
    requires
        flat_map(s, f).contains(x),
    ensures
        exists|i: int| 0 <= i < s.len() && (#[trigger] f(s[i])).contains(x),
    decreases s.len(),
{
    if s.len() > 0 {
        let p = flat_map(s.drop_last(), f);
        let q = f(s.last());
        assert(flat_map(s, f) == p + q);
        if p.contains(x) {
            lemma_flat_map_member(s.drop_last(), f, x);
            let i = choose|i: int| 0 <= i < s.drop_last().len() && (#[trigger] f(s.drop_last()[i])).contains(x);
            assert(s.drop_last()[i] == s[i]);
        } else {
            let j = choose|j: int| 0 <= j < (p + q).len() && (p + q)[j] == x;
            if j < p.len() {
                assert(p[j] == x);
            } else {
                assert(q[j - p.len()] == x);
                assert(f(s[s.len() - 1]).contains(x));
            }
        }
    }
}

/// How many elements of `s` satisfy `p`.
pub open spec fn count_where<A>(s: Seq<A>, p: spec_fn(A) -> bool) -> nat
    decreases s.len(),
{
    if s.len() == 0 {
        0
    } else {
        count_where(s.drop_last(), p) + if p(s.last()) {
            1nat
        } else {
            0nat
        }
    }
}

pub proof fn lemma_count_where_step<A>(s: Seq<A>, p: spec_fn(A) -> bool, i: int)
    requires
        0 <= i < s.len(),
    ensures
        count_where(s.take(i + 1), p) == count_where(s.take(i), p) + if p(s[i]) {
            1nat
        } else {
            0nat
        },
        count_where(s.take(i), p) <= i,
    decreases i,
{
    assert(s.take(i + 1).drop_last() =~= s.take(i));
    if i > 0 {
        lemma_count_where_step(s, p, i - 1);
    } else {
        assert(s.take(0).len() == 0);
    }
}

/// The sum of `f` over the elements of `s`.
/// Counting two exclusive properties separately counts their union.
pub proof fn lemma_count_where_split<A>(
    s: Seq<A>,
    p: spec_fn(A) -> bool,
    q: spec_fn(A) -> bool,
    u: spec_fn(A) -> bool,
)
    requires
        forall|x: A| #[trigger] u(x) == (p(x) || q(x)),
        forall|x: A| !(#[trigger] p(x) && q(x)),
    ensures
        count_where(s, p) + count_where(s, q) == count_where(s, u),
    decreases s.len(),
{
    if s.len() > 0 {
        lemma_count_where_split(s.drop_last(), p, q, u);
        assert(u(s.last()) == (p(s.last()) || q(s.last())));
        assert(!(p(s.last()) && q(s.last())));
    }
}

/// Nothing is counted when no element has the property.
pub proof fn lemma_count_where_none<A>(s: Seq<A>, p: spec_fn(A) -> bool)
    requires
        forall|i: int| 0 <= i < s.len() ==> !p(#[trigger] s[i]),
    ensures
        count_where(s, p) == 0,
    decreases s.len(),
{
    if s.len() > 0 {
        assert forall|i: int| 0 <= i < s.drop_last().len() implies !p(#[trigger] s.drop_last()[i]) by {
            assert(s.drop_last()[i] == s[i]);
        }
        lemma_count_where_none(s.drop_last(), p);
        assert(!p(s[s.len() - 1]));
    }
}

/// The total of `f` over a concatenation is the sum of the totals.
pub proof fn lemma_sum_of_append<A>(a: Seq<A>, b: Seq<A>, f: spec_fn(A) -> nat)
    ensures
        sum_of(a + b, f) == sum_of(a, f) + sum_of(b, f),
    decreases b.len(),
{
    if b.len() > 0 {
        lemma_sum_of_append(a, b.drop_last(), f);
        assert((a + b).drop_last() =~= a + b.drop_last());
        assert((a + b).last() == b.last());
    } else {
        assert(a + b =~= a);
    }
}

pub open spec fn sum_of<A>(s: Seq<A>, f: spec_fn(A) -> nat) -> nat
    decreases s.len(),
{
    if s.len() == 0 {
        0
    } else {
        sum_of(s.drop_last(), f) + f(s.last())
    }
}

pub proof fn lemma_sum_of_step<A>(s: Seq<A>, f: spec_fn(A) -> nat, i: int)
    requires
        0 <= i < s.len(),
    ensures
        sum_of(s.take(i + 1), f) == sum_of(s.take(i), f) + f(s[i]),
{
    assert(s.take(i + 1).drop_last() =~= s.take(i));
}

/// The texts of a list of strings.
pub open spec fn texts(v: Seq<String>) -> Seq<Seq<char>> {
    v.map_values(|s: String| s@)
}

/// Appends a line of text to a list of strings.
pub fn push_text(v: &mut Vec<String>, s: String)
    ensures
        texts(final(v)@) == texts(old(v)@).push(s@),
{
    let ghost t = s@;
    v.push(s);
    assert(texts(final(v)@) =~= texts(old(v)@).push(t));
}

} // verus!
