//! The lexicographic order of texts and a verified stable sort.

use vstd::prelude::*;
use vstd::seq_lib::seq_to_set_is_finite;
use vstd::set_lib::{lemma_int_range, lemma_subset_equality, set_int_range};
use vstd::string::*;

verus! {

/// `a` comes no later than `b` in the lexicographic order of code points,
/// which is the order in which `String`'s `Ord` compares (UTF-8 keeps it).
pub open spec fn text_le(a: Seq<char>, b: Seq<char>) -> bool
    decreases a.len(),
{
    if a.len() == 0 {
        true
    } else if b.len() == 0 {
        false
    } else if a[0] == b[0] {
        text_le(a.drop_first(), b.drop_first())
    } else {
        (a[0] as u32) < (b[0] as u32)
    }
}

/// The three-way comparison of two texts: -1, 0 or 1.
pub open spec fn text_rank(a: Seq<char>, b: Seq<char>) -> int {
    if a == b {
        0
    } else if text_le(a, b) {
        -1
    } else {
        1
    }
}

/// Any two texts are ordered one way or the other.
pub proof fn lemma_text_le_total(a: Seq<char>, b: Seq<char>)
    ensures
        text_le(a, b) || text_le(b, a),
    decreases a.len(),
{
    if a.len() > 0 && b.len() > 0 {
        if a[0] == b[0] {
            lemma_text_le_total(a.drop_first(), b.drop_first());
        } else {
            lemma_char_code_injective(a[0], b[0]);
        }
    }
}

/// Distinct characters have distinct code points.
pub proof fn lemma_char_code_injective(a: char, b: char)
    ensures
        a != b ==> (a as u32) != (b as u32),
{
}

/// The order of texts is transitive.
pub proof fn lemma_text_le_transitive(a: Seq<char>, b: Seq<char>, c: Seq<char>)
    requires
        text_le(a, b),
        text_le(b, c),
    ensures
        text_le(a, c),
    decreases a.len(),
{
    if a.len() > 0 && b.len() > 0 && c.len() > 0 && a[0] == b[0] && b[0] == c[0] {
        lemma_text_le_transitive(a.drop_first(), b.drop_first(), c.drop_first());
    }
}

/// Texts ordered both ways are equal.
pub proof fn lemma_text_le_antisymmetric(a: Seq<char>, b: Seq<char>)
    requires
        text_le(a, b),
        text_le(b, a),
    ensures
        a == b,
    decreases a.len(),
{
    if a.len() > 0 && b.len() > 0 {
        assert(a[0] == b[0]);
        lemma_text_le_antisymmetric(a.drop_first(), b.drop_first());
        assert(a =~= b) by {
            assert forall|i: int| 0 <= i < a.len() implies a[i] == b[i] by {
                if i > 0 {
                    assert(a[i] == a.drop_first()[i - 1]);
                    assert(b[i] == b.drop_first()[i - 1]);
                }
            }
        }
    } else {
        assert(a =~= b);
    }
}

/// A text is ordered before itself.
pub proof fn lemma_text_le_reflexive(a: Seq<char>)
    ensures
        text_le(a, a),
    decreases a.len(),
{
    if a.len() > 0 {
        lemma_text_le_reflexive(a.drop_first());
    }
}

/// Compares two texts in the order of `String`'s `Ord`: -1, 0 or 1.
pub fn compare_text(a: &str, b: &str) -> (r: i8)
    ensures
        r as int == text_rank(a@, b@),
{
    let na = a.unicode_len();
    let nb = b.unicode_len();
    let mut i: usize = 0;
    proof {
        assert(a@.skip(0) =~= a@);
        assert(b@.skip(0) =~= b@);
    }
    while i < na && i < nb && a.get_char(i) == b.get_char(i)
        invariant
            na == a@.len(),
            nb == b@.len(),
            i <= na,
            i <= nb,
            forall|j: int| 0 <= j < i ==> a@[j] == b@[j],
            text_le(a@, b@) == text_le(a@.skip(i as int), b@.skip(i as int)),
        decreases na - i,
    {
        proof {
            assert(a@.skip(i as int).drop_first() =~= a@.skip(i + 1));
            assert(b@.skip(i as int).drop_first() =~= b@.skip(i + 1));
        }
        i += 1;
    }
    if i < na && i < nb {
        let ca = a.get_char(i);
        let cb = b.get_char(i);
        proof {
            assert(a@.skip(i as int)[0] == ca);
            assert(b@.skip(i as int)[0] == cb);
            assert(a@[i as int] != b@[i as int]);
        }
        if (ca as u32) < (cb as u32) {
            -1
        } else {
            1
        }
    } else if i == na && i == nb {
        proof {
            assert(a@ =~= b@);
        }
        0
    } else if i == na {
        proof {
            assert(a@ != b@) by {
                assert(a@.len() != b@.len());
            }
        }
        -1
    } else {
        proof {
            assert(a@.len() != b@.len());
        }
        1
    }
}

/// A total preorder on the values of a type, decided by `le`.
pub trait SortKey: Sized {
    /// `self` may come before `other`.
    spec fn sort_le(self, other: Self) -> bool;

    proof fn lemma_sort_le_total(a: Self, b: Self)
        ensures
            a.sort_le(b) || b.sort_le(a),
    ;

    proof fn lemma_sort_le_transitive(a: Self, b: Self, c: Self)
        requires
            a.sort_le(b),
            b.sort_le(c),
        ensures
            a.sort_le(c),
    ;

    fn le(&self, other: &Self) -> (r: bool)
        ensures
            r == self.sort_le(*other),
    ;
}

/// The order that `T`'s `SortKey` decides, as a spec function.
pub open spec fn key_order<T: SortKey>() -> spec_fn(T, T) -> bool {
    |a: T, b: T| a.sort_le(b)
}

/// Neither of `a` and `b` must come before the other.
pub open spec fn sort_equivalent<T: SortKey>(a: T, b: T) -> bool {
    a.sort_le(b) && b.sort_le(a)
}

/// `s` is in the order `le`.
pub open spec fn sorted_by<A>(s: Seq<A>, le: spec_fn(A, A) -> bool) -> bool {
    forall|i: int, j: int| 0 <= i < j < s.len() ==> le(#[trigger] s[i], #[trigger] s[j])
}

/// `p` maps the positions `0..n` one to one onto positions `0..n`.
pub open spec fn is_index_permutation(p: Seq<int>, n: int) -> bool {
    &&& p.len() == n
    &&& forall|k: int| 0 <= k < n ==> 0 <= #[trigger] p[k] < n
    &&& forall|k: int, l: int| 0 <= k < n && 0 <= l < n && k != l ==> #[trigger] p[k] != #[trigger] p[l]
}

/// `out` holds the items of `inp` through the permutation `p`, in the order
/// `le`, with items that are equivalent under `le` in their order in `inp`.
pub open spec fn stable_sort_witness<A>(
    out: Seq<A>,
    inp: Seq<A>,
    p: Seq<int>,
    le: spec_fn(A, A) -> bool,
) -> bool {
    &&& out.len() == inp.len()
    &&& is_index_permutation(p, inp.len() as int)
    &&& forall|k: int| 0 <= k < out.len() ==> #[trigger] out[k] == inp[p[k]]
    &&& sorted_by(out, le)
    &&& forall|k: int, l: int|
        0 <= k < l < out.len() && le(#[trigger] out[k], #[trigger] out[l]) && le(out[l], out[k])
            ==> p[k] < p[l]
}

/// `out` is the stable sort of `inp` by `le`: a rearrangement of it that is
/// in order and keeps equivalent items in their order in `inp`.
pub open spec fn is_stable_sort_by<A>(out: Seq<A>, inp: Seq<A>, le: spec_fn(A, A) -> bool) -> bool {
    exists|p: Seq<int>| stable_sort_witness(out, inp, p, le)
}

/// A stable sort by the order of `T` is also a stable sort of the items'
/// views, by any order of views that decides the order of `T`.
pub proof fn lemma_stable_sort_views<T: SortKey + View>(
    out: Seq<T>,
    inp: Seq<T>,
    le: spec_fn(T::V, T::V) -> bool,
)
    requires
        is_stable_sort_by(out, inp, key_order::<T>()),
        forall|a: T, b: T| #[trigger] a.sort_le(b) == le(a@, b@),
    ensures
        is_stable_sort_by(out.map_values(|t: T| t@), inp.map_values(|t: T| t@), le),
{
    let p = choose|p: Seq<int>| stable_sort_witness(out, inp, p, key_order::<T>());
    let vo = out.map_values(|t: T| t@);
    let vi = inp.map_values(|t: T| t@);
    assert forall|k: int| 0 <= k < vo.len() implies #[trigger] vo[k] == vi[p[k]] by {
        assert(out[k] == inp[p[k]]);
    }
    assert forall|i: int, j: int| 0 <= i < j < vo.len() implies le(#[trigger] vo[i], #[trigger] vo[j]) by {
        assert(key_order::<T>()(out[i], out[j]));
        assert(out[i].sort_le(out[j]));
    }
    assert forall|k: int, l: int|
        0 <= k < l < vo.len() && le(#[trigger] vo[k], #[trigger] vo[l]) && le(vo[l], vo[k]) implies p[k]
        < p[l] by {
        assert(out[k].sort_le(out[l]));
        assert(out[l].sort_le(out[k]));
        assert(key_order::<T>()(out[k], out[l]));
    }
    assert(stable_sort_witness(vo, vi, p, le));
}

/// A permutation of the positions `0..n` reaches every position.
pub proof fn lemma_index_permutation_onto(p: Seq<int>, n: int, m: int)
    requires
        is_index_permutation(p, n),
        0 <= m < n,
    ensures
        exists|k: int| 0 <= k < n && p[k] == m,
{
    assert(p.no_duplicates());
    p.unique_seq_to_set();
    lemma_int_range(0, n);
    assert(p.to_set().subset_of(set_int_range(0, n)));
    seq_to_set_is_finite(p);
    lemma_subset_equality(p.to_set(), set_int_range(0, n));
    assert(set_int_range(0, n).contains(m));
    assert(p.to_set().contains(m));
    assert(p.contains(m));
}

/// A stable sort of a sequence that is already in order leaves it as it is.
pub proof fn lemma_stable_sort_of_sorted<A>(out: Seq<A>, inp: Seq<A>, le: spec_fn(A, A) -> bool)
    requires
        is_stable_sort_by(out, inp, le),
        sorted_by(inp, le),
    ensures
        out == inp,
{
    let p = choose|p: Seq<int>| stable_sort_witness(out, inp, p, le);
    let n = inp.len() as int;
    // The permutation only ever moves forward.
    assert forall|k: int, l: int| 0 <= k < l < n implies #[trigger] p[k] < #[trigger] p[l] by {
        assert(out[k] == inp[p[k]]);
        assert(out[l] == inp[p[l]]);
        assert(le(out[k], out[l]));
        if p[l] < p[k] {
            assert(le(inp[p[l]], inp[p[k]]));
        }
    }
    lemma_increasing_permutation_is_identity(p, n);
    assert(out =~= inp) by {
        assert forall|k: int| 0 <= k < n implies out[k] == inp[k] by {
            assert(out[k] == inp[p[k]]);
        }
    }
}

/// A permutation of `0..n` that preserves order is the identity.
proof fn lemma_increasing_permutation_is_identity(p: Seq<int>, n: int)
    requires
        is_index_permutation(p, n),
        forall|k: int, l: int| 0 <= k < l < n ==> #[trigger] p[k] < #[trigger] p[l],
    ensures
        forall|k: int| 0 <= k < n ==> #[trigger] p[k] == k,
{
    assert forall|k: int| 0 <= k < n implies #[trigger] p[k] == k by {
        lemma_increasing_lower_bound(p, n, k);
        lemma_increasing_upper_bound(p, n, k);
    }
}

proof fn lemma_increasing_lower_bound(p: Seq<int>, n: int, k: int)
    requires
        is_index_permutation(p, n),
        forall|a: int, b: int| 0 <= a < b < n ==> #[trigger] p[a] < #[trigger] p[b],
        0 <= k < n,
    ensures
        p[k] >= k,
    decreases k,
{
    if k > 0 {
        lemma_increasing_lower_bound(p, n, k - 1);
        assert(p[k - 1] < p[k]);
    }
}

proof fn lemma_increasing_upper_bound(p: Seq<int>, n: int, k: int)
    requires
        is_index_permutation(p, n),
        forall|a: int, b: int| 0 <= a < b < n ==> #[trigger] p[a] < #[trigger] p[b],
        0 <= k < n,
    ensures
        p[k] <= k,
    decreases n - k,
{
    if k < n - 1 {
        lemma_increasing_upper_bound(p, n, k + 1);
        assert(p[k] < p[k + 1]);
    }
}

/// The stable sort of a sequence is unique: any two stable sorts of the same
/// sequence by the same order are equal.
pub proof fn lemma_stable_sort_unique<A>(
    out1: Seq<A>,
    out2: Seq<A>,
    inp: Seq<A>,
    le: spec_fn(A, A) -> bool,
)
    requires
        is_stable_sort_by(out1, inp, le),
        is_stable_sort_by(out2, inp, le),
    ensures
        out1 == out2,
{
    let p1 = choose|p: Seq<int>| stable_sort_witness(out1, inp, p, le);
    let p2 = choose|p: Seq<int>| stable_sort_witness(out2, inp, p, le);
    let n = inp.len() as int;
    // `pos(m)` is where out1 holds the item from position m of inp.
    let pos = |m: int| choose|k: int| 0 <= k < n && p1[k] == m;
    assert forall|m: int| 0 <= m < n implies 0 <= #[trigger] pos(m) < n && p1[pos(m)] == m by {
        lemma_index_permutation_onto(p1, n, m);
    }
    let r = Seq::new(n as nat, |k: int| pos(p2[k]));
    assert forall|k: int| 0 <= k < n implies #[trigger] out2[k] == out1[r[k]] by {
        assert(out2[k] == inp[p2[k]]);
        assert(0 <= p2[k] < n);
        assert(out1[pos(p2[k])] == inp[p1[pos(p2[k])]]);
    }
    assert(is_index_permutation(r, n)) by {
        assert forall|k: int| 0 <= k < n implies 0 <= #[trigger] r[k] < n by {
            assert(0 <= p2[k] < n);
        }
        assert forall|k: int, l: int|
            0 <= k < n && 0 <= l < n && k != l implies #[trigger] r[k] != #[trigger] r[l] by {
            assert(0 <= p2[k] < n);
            assert(0 <= p2[l] < n);
            assert(p2[k] != p2[l]);
            assert(p1[pos(p2[k])] == p2[k]);
            assert(p1[pos(p2[l])] == p2[l]);
        }
    }
    assert forall|k: int, l: int|
        0 <= k < l < n && le(#[trigger] out2[k], #[trigger] out2[l]) && le(out2[l], out2[k]) implies r[k]
        < r[l] by {
        assert(p2[k] < p2[l]);
        assert(0 <= p2[k] < n);
        assert(0 <= p2[l] < n);
        assert(p1[r[k]] == p2[k]);
        assert(p1[r[l]] == p2[l]);
        assert(out1[r[k]] == out2[k]);
        assert(out1[r[l]] == out2[l]);
        if r[l] < r[k] {
            assert(p1[r[l]] < p1[r[k]]);
        }
    }
    assert(stable_sort_witness(out2, out1, r, le));
    lemma_stable_sort_of_sorted(out2, out1, le);
}

/// `ys` is a rearrangement of `xs`.
pub open spec fn is_rearrangement_of<A>(ys: Seq<A>, xs: Seq<A>) -> bool {
    exists|q: Seq<int>|
        is_index_permutation(q, xs.len() as int) && ys.len() == xs.len() && forall|k: int|
            0 <= k < ys.len() ==> #[trigger] ys[k] == xs[q[k]]
}

/// No two items at different positions of `s` are equivalent under `le`.
pub open spec fn keys_distinct<A>(s: Seq<A>, le: spec_fn(A, A) -> bool) -> bool {
    forall|i: int, j: int|
        0 <= i < s.len() && 0 <= j < s.len() && i != j ==> !(le(#[trigger] s[i], #[trigger] s[j])
            && le(s[j], s[i]))
}

/// When no two items are equivalent, the order in which they are given does
/// not matter: the stable sorts of two rearrangements of each other are equal.
pub proof fn lemma_stable_sort_rearrangement<A>(
    out1: Seq<A>,
    out2: Seq<A>,
    xs: Seq<A>,
    ys: Seq<A>,
    le: spec_fn(A, A) -> bool,
)
    requires
        is_stable_sort_by(out1, xs, le),
        is_stable_sort_by(out2, ys, le),
        is_rearrangement_of(ys, xs),
        keys_distinct(xs, le),
    ensures
        out1 == out2,
{
    let q = choose|q: Seq<int>|
        is_index_permutation(q, xs.len() as int) && ys.len() == xs.len() && forall|k: int|
            0 <= k < ys.len() ==> #[trigger] ys[k] == xs[q[k]];
    let p2 = choose|p: Seq<int>| stable_sort_witness(out2, ys, p, le);
    let n = xs.len() as int;
    let r = Seq::new(n as nat, |k: int| q[p2[k]]);
    assert forall|k: int| 0 <= k < n implies #[trigger] out2[k] == xs[r[k]] by {
        assert(out2[k] == ys[p2[k]]);
        assert(0 <= p2[k] < n);
        assert(ys[p2[k]] == xs[q[p2[k]]]);
    }
    assert(is_index_permutation(r, n)) by {
        assert forall|k: int| 0 <= k < n implies 0 <= #[trigger] r[k] < n by {
            assert(0 <= p2[k] < n);
        }
        assert forall|k: int, l: int|
            0 <= k < n && 0 <= l < n && k != l implies #[trigger] r[k] != #[trigger] r[l] by {
            assert(0 <= p2[k] < n);
            assert(0 <= p2[l] < n);
            assert(p2[k] != p2[l]);
        }
    }
    assert forall|k: int, l: int|
        0 <= k < l < n && le(#[trigger] out2[k], #[trigger] out2[l]) && le(out2[l], out2[k]) implies r[k]
        < r[l] by {
        assert(0 <= p2[k] < n);
        assert(0 <= p2[l] < n);
        assert(0 <= r[k] < n);
        assert(0 <= r[l] < n);
        assert(r[k] != r[l]);
        assert(out2[k] == xs[r[k]]);
        assert(out2[l] == xs[r[l]]);
        assert(!(le(xs[r[k]], xs[r[l]]) && le(xs[r[l]], xs[r[k]])));
    }
    assert(stable_sort_witness(out2, xs, r, le));
    lemma_stable_sort_unique(out1, out2, xs, le);
}

/// Sorts `v` stably, as `slice::sort_by` does with the order of `T`.
pub fn stable_sort<T: SortKey>(v: &mut Vec<T>)
    ensures
        is_stable_sort_by(final(v)@, old(v)@, key_order::<T>()),
{
    let ghost orig = v@;
    let n = v.len();
    let ghost mut perm: Seq<int> = Seq::new(n as nat, |k: int| k);
    let mut i: usize = 0;
    while i < n
        invariant
            n == v@.len(),
            n == orig.len(),
            i <= n,
            is_index_permutation(perm, n as int),
            forall|k: int| 0 <= k < n ==> #[trigger] v@[k] == orig[perm[k]],
            forall|k: int| i <= k < n ==> #[trigger] perm[k] == k,
            forall|k: int| 0 <= k < i ==> #[trigger] perm[k] < i,
            forall|a: int, b: int| 0 <= a < b < i ==> #[trigger] v@[a].sort_le(#[trigger] v@[b]),
            forall|a: int, b: int|
                0 <= a < b < i && sort_equivalent(#[trigger] v@[a], #[trigger] v@[b]) ==> perm[a]
                    < perm[b],
        decreases n - i,
    {
        let ghost before = v@;
        let x = v.remove(i);
        let mut j = i;
        while j > 0 && !v[j - 1].le(&x)
            invariant
                j <= i,
                i < n,
                before.len() == n,
                v@ == before.remove(i as int),
                x == before[i as int],
                forall|k: int| j <= k < i ==> !(#[trigger] v@[k]).sort_le(x),
            decreases j,
        {
            j -= 1;
        }
        proof {
            // Everything before position j comes no later than x.
            assert forall|a: int| 0 <= a < j implies (#[trigger] before[a]).sort_le(x) by {
                if a < j - 1 {
                    assert(before[a].sort_le(before[j - 1]));
                    T::lemma_sort_le_transitive(before[a], before[j - 1], x);
                }
            }
            // Everything from position j up to i comes after x.
            assert forall|a: int| j <= a < i implies x.sort_le(#[trigger] before[a]) by {
                assert(v@[a] == before[a]);
                T::lemma_sort_le_total(before[a], x);
            }
        }
        v.insert(j, x);
        proof {
            let old_perm = perm;
            perm = old_perm.remove(i as int).insert(j as int, i as int);
            assert(v@ =~= before.remove(i as int).insert(j as int, x));
            assert forall|k: int| 0 <= k < n implies #[trigger] v@[k] == orig[perm[k]] by {
                if k < j {
                    assert(v@[k] == before[k]);
                    assert(perm[k] == old_perm[k]);
                } else if k == j {
                } else if k <= i {
                    assert(v@[k] == before[k - 1]);
                    assert(perm[k] == old_perm[k - 1]);
                } else {
                    assert(v@[k] == before[k]);
                    assert(perm[k] == old_perm[k]);
                }
            }
            assert forall|k: int, l: int|
                0 <= k < n && 0 <= l < n && k != l implies #[trigger] perm[k] != #[trigger] perm[l] by {
                let ok = if k < j { k } else if k == j { i as int } else if k <= i { k - 1 } else { k };
                let ol = if l < j { l } else if l == j { i as int } else if l <= i { l - 1 } else { l };
                assert(perm[k] == old_perm[ok]);
                assert(perm[l] == old_perm[ol]);
            }
            assert forall|k: int| 0 <= k < n implies 0 <= #[trigger] perm[k] < n by {
                let ok = if k < j { k } else if k == j { i as int } else if k <= i { k - 1 } else { k };
                assert(perm[k] == old_perm[ok]);
            }
            assert forall|k: int| i + 1 <= k < n implies #[trigger] perm[k] == k by {
                assert(perm[k] == old_perm[k]);
            }
            assert forall|k: int| 0 <= k < i + 1 implies #[trigger] perm[k] < i + 1 by {
                let ok = if k < j { k } else if k == j { i as int } else { k - 1 };
                assert(perm[k] == old_perm[ok]);
            }
            assert forall|a: int, b: int| 0 <= a < b < i + 1 implies #[trigger] v@[a].sort_le(
                #[trigger] v@[b],
            ) by {
                let oa = if a < j { a } else if a == j { i as int } else { a - 1 };
                let ob = if b < j { b } else if b == j { i as int } else { b - 1 };
                if a == j {
                    assert(x.sort_le(before[ob]));
                } else if b == j {
                    assert(before[oa].sort_le(x));
                } else {
                    assert(v@[a] == before[oa]);
                    assert(v@[b] == before[ob]);
                    assert(before[oa].sort_le(before[ob]));
                }
            }
            assert forall|a: int, b: int|
                0 <= a < b < i + 1 && sort_equivalent(#[trigger] v@[a], #[trigger] v@[b]) implies perm[a]
                < perm[b] by {
                let oa = if a < j { a } else if a == j { i as int } else { a - 1 };
                let ob = if b < j { b } else if b == j { i as int } else { b - 1 };
                assert(perm[a] == old_perm[oa]);
                assert(perm[b] == old_perm[ob]);
                if a == j {
                    assert(!before[ob].sort_le(x));
                } else if b == j {
                } else {
                    assert(v@[a] == before[oa]);
                    assert(v@[b] == before[ob]);
                }
            }
        }
        i += 1;
    }
    proof {
        assert(stable_sort_witness(v@, orig, perm, key_order::<T>()));
    }
}

} // verus!
