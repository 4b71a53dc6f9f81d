//! Lexicographic order on byte strings (the order of `str`'s `Ord`) and a
//! verified insertion sort over any total preorder.
use vstd::prelude::*;

verus! {

/// `a` and `b` agree on their first `n` bytes.
pub open spec fn same_prefix(a: Seq<u8>, b: Seq<u8>, n: int) -> bool {
    forall|j: int| 0 <= j < n ==> a[j] == b[j]
}

/// `a` sorts strictly before `b` byte-wise: at the first position where
/// they differ `a` has the smaller byte, or `a` is a proper prefix of `b`.
pub open spec fn bytes_lt(a: Seq<u8>, b: Seq<u8>) -> bool {
    exists|n: int|
        0 <= n <= a.len() && n < b.len() && same_prefix(a, b, n) && (n == a.len() || a[n] < b[n])
}

/// Byte-wise strict order is irreflexive, transitive and total on distinct
/// strings.
pub proof fn lemma_bytes_order(a: Seq<u8>, b: Seq<u8>, c: Seq<u8>)
    ensures
        !bytes_lt(a, a),
        bytes_lt(a, b) ==> !bytes_lt(b, a),
        bytes_lt(a, b) && bytes_lt(b, c) ==> bytes_lt(a, c),
        a != b ==> bytes_lt(a, b) || bytes_lt(b, a),
{
    if bytes_lt(a, b) {
        let n = choose|n: int|
            0 <= n <= a.len() && n < b.len() && same_prefix(a, b, n) && (n == a.len() || a[n]
                < b[n]);
        if bytes_lt(b, a) {
            let m = choose|m: int|
                0 <= m <= b.len() && m < a.len() && same_prefix(b, a, m) && (m == b.len() || b[m]
                    < a[m]);
            if m < n {
                assert(a[m] == b[m]);
            } else if n < m {
                assert(a[n] == b[n]);
            }
        }
        if bytes_lt(b, c) {
            let m = choose|m: int|
                0 <= m <= b.len() && m < c.len() && same_prefix(b, c, m) && (m == b.len() || b[m]
                    < c[m]);
            let k = if n < m {
                n
            } else {
                m
            };
            assert(same_prefix(a, c, k));
            assert(0 <= k <= a.len() && k < c.len() && (k == a.len() || a[k] < c[k]));
        }
    }
    if bytes_lt(a, a) {
        let n = choose|n: int|
            0 <= n <= a.len() && n < a.len() && same_prefix(a, a, n) && (n == a.len() || a[n]
                < a[n]);
    }
    if a != b && !bytes_lt(a, b) && !bytes_lt(b, a) {
        let lim = if a.len() < b.len() {
            a.len() as int
        } else {
            b.len() as int
        };
        if same_prefix(a, b, lim) {
            if a.len() < b.len() {
                assert(bytes_lt(a, b));
            } else if b.len() < a.len() {
                assert(same_prefix(b, a, lim));
                assert(bytes_lt(b, a));
            } else {
                assert(a =~= b);
            }
        } else {
            let d = choose|d: int| 0 <= d < lim && a[d] != b[d];
            let n = first_difference(a, b, d);
            if a[n] < b[n] {
                assert(bytes_lt(a, b));
            } else {
                assert(same_prefix(b, a, n));
                assert(bytes_lt(b, a));
            }
        }
    }
}

/// The first position where `a` and `b` differ, given one at `d`.
proof fn first_difference(a: Seq<u8>, b: Seq<u8>, d: int) -> (n: int)
    requires
        0 <= d < a.len(),
        d < b.len(),
        a[d] != b[d],
    ensures
        0 <= n <= d,
        a[n] != b[n],
        same_prefix(a, b, n),
    decreases d,
{
    if same_prefix(a, b, d) {
        d
    } else {
        let e = choose|e: int| 0 <= e < d && a[e] != b[e];
        first_difference(a, b, e)
    }
}

/// Compares `a` and `b` byte-wise: -1 when `a` sorts first, 0 when equal,
/// 1 when `b` sorts first.
pub fn compare_bytes(a: &[u8], b: &[u8]) -> (r: i8)
    ensures
        r == 0 <==> a@ == b@,
        r < 0 <==> bytes_lt(a@, b@),
        r > 0 <==> bytes_lt(b@, a@),
        -1 <= r <= 1,
{
    proof {
        lemma_bytes_order(a@, b@, a@);
    }
    let mut i: usize = 0;
    while i < a.len() && i < b.len()
        invariant
            i <= a@.len(),
            i <= b@.len(),
            same_prefix(a@, b@, i as int),
        decreases a@.len() - i,
    {
        if a[i] != b[i] {
            if a[i] < b[i] {
                assert(bytes_lt(a@, b@));
                return -1;
            } else {
                assert(same_prefix(b@, a@, i as int));
                assert(bytes_lt(b@, a@));
                return 1;
            }
        }
        i += 1;
    }
    if a.len() < b.len() {
        assert(bytes_lt(a@, b@));
        -1
    } else if b.len() < a.len() {
        assert(same_prefix(b@, a@, i as int));
        assert(bytes_lt(b@, a@));
        1
    } else {
        assert(a@ =~= b@);
        0
    }
}

/// Items with a total preorder `le` that can be tested at run time.
pub trait SortKey: Sized {
    spec fn le(&self, other: &Self) -> bool;

    proof fn lemma_le_total(a: &Self, b: &Self)
        ensures
            a.le(b) || b.le(a),
    ;

    proof fn lemma_le_transitive(a: &Self, b: &Self, c: &Self)
        requires
            a.le(b),
            b.le(c),
        ensures
            a.le(c),
    ;

    fn is_le(&self, other: &Self) -> (r: bool)
        ensures
            r == self.le(other),
    ;
}

/// `s` is in ascending order.
pub open spec fn sorted_by_le<T: SortKey>(s: Seq<T>) -> bool {
    forall|i: int, j: int| #![trigger s[i], s[j]] 0 <= i < j < s.len() ==> s[i].le(&s[j])
}

/// `a` and `b` sort alike: each is `le` the other.
pub open spec fn equivalent<T: SortKey>(a: T, b: T) -> bool {
    a.le(&b) && b.le(&a)
}

/// The items of `s` that sort alike with `z`, in their order in `s`.
pub open spec fn class_of<T: SortKey>(s: Seq<T>, z: T) -> Seq<T> {
    s.filter(|w: T| equivalent(w, z))
}

/// Moving `x` in front of items none of which sorts alike with it leaves
/// every class in the same order.
proof fn lemma_move_keeps_classes<T: SortKey>(a: Seq<T>, b: Seq<T>, x: T, c: Seq<T>, z: T)
    requires
        forall|k: int| 0 <= k < b.len() ==> !(#[trigger] b[k]).le(&x),
    ensures
        class_of(a + seq![x] + b + c, z) == class_of(a + b + seq![x] + c, z),
{
    let p = |w: T| equivalent(w, z);
    let one = seq![x];
    reveal(Seq::filter);
    assert(one.drop_last() =~= Seq::<T>::empty());
    assert(one.filter(p) == if p(x) {
        seq![x]
    } else {
        Seq::<T>::empty()
    }) by {
        assert(Seq::<T>::empty().filter(p) =~= Seq::<T>::empty());
    }
    Seq::filter_distributes_over_add(a, one, p);
    Seq::filter_distributes_over_add(a + one, b, p);
    Seq::filter_distributes_over_add(a + one + b, c, p);
    Seq::filter_distributes_over_add(a, b, p);
    Seq::filter_distributes_over_add(a + b, one, p);
    Seq::filter_distributes_over_add(a + b + one, c, p);
    if p(x) {
        assert forall|k: int| 0 <= k < b.len() implies !p(b[k]) by {
            if p(b[k]) {
                T::lemma_le_transitive(&b[k], &z, &x);
            }
        }
        b.lemma_all_neg_filter_empty(p);
        assert(a.filter(p) + one.filter(p) + b.filter(p) =~= a.filter(p) + b.filter(p) + one.filter(
            p,
        ));
    } else {
        assert(a.filter(p) + one.filter(p) + b.filter(p) =~= a.filter(p) + b.filter(p) + one.filter(
            p,
        ));
    }
}

/// Sorts `v` in ascending order, keeping the relative order of items that
/// sort alike.
pub fn insertion_sort<T: SortKey>(v: &mut Vec<T>)
    ensures
        final(v)@.to_multiset() == old(v)@.to_multiset(),
        sorted_by_le(final(v)@),
        forall|z: T| #[trigger] class_of(final(v)@, z) == class_of(old(v)@, z),
{
    let n = v.len();
    if n == 0 {
        return ;
    }
    let mut i: usize = 1;
    while i < n
        invariant
            1 <= i <= n,
            v@.len() == n,
            v@.to_multiset() == old(v)@.to_multiset(),
            sorted_by_le(v@.subrange(0, i as int)),
            forall|z: T| #[trigger] class_of(v@, z) == class_of(old(v)@, z),
        decreases n - i,
    {
        let ghost before = v@;
        let x = v.remove(i);
        proof {
            vstd::seq_lib::to_multiset_remove(before, i as int);
        }
        let mut j: usize = i;
        while j > 0 && !v[j - 1].is_le(&x)
            invariant
                0 <= j <= i,
                i < n,
                v@.len() == n - 1,
                before.len() == n,
                v@ == before.remove(i as int),
                forall|k: int| j <= k < i ==> !(#[trigger] v@[k]).le(&x),
            decreases j,
        {
            j -= 1;
        }
        let ghost mid = v@;
        v.insert(j, x);
        proof {
            vstd::seq_lib::to_multiset_insert(mid, j as int, x);
            assert(before.to_multiset().remove(x).insert(x) =~= before.to_multiset()) by {
                assert(before[i as int] == x);
                assert(before.to_multiset().count(x) > 0) by {
                    vstd::seq_lib::to_multiset_contains(before, x);
                    assert(before.contains(x));
                }
            }
            assert forall|z: T| #[trigger] class_of(v@, z) == class_of(old(v)@, z) by {
                let a = before.subrange(0, j as int);
                let b = before.subrange(j as int, i as int);
                let c = before.subrange(i as int + 1, n as int);
                assert forall|k: int| 0 <= k < b.len() implies !(#[trigger] b[k]).le(&x) by {
                    assert(b[k] == mid[j + k]);
                }
                lemma_move_keeps_classes(a, b, x, c, z);
                assert(v@ =~= a + seq![x] + b + c);
                assert(before =~= a + b + seq![x] + c);
                assert(class_of(before, z) == class_of(old(v)@, z));
            }
            let s = v@.subrange(0, i as int + 1);
            let p = before.subrange(0, i as int);
            assert forall|k: int| 0 <= k < j implies s[k] == p[k] && mid[k] == p[k] by {}
            assert forall|k: int| j < k <= i implies s[k] == p[k - 1] && mid[k - 1] == p[k - 1] by {}
            assert(s[j as int] == x);
            assert(sorted_by_le(p));
            assert forall|a: int, b: int| #![trigger s[a], s[b]] 0 <= a < b < s.len() implies s[a].le(
                &s[b],
            ) by {
                if b < j {
                    assert(p[a].le(&p[b]));
                } else if a > j {
                    assert(p[a - 1].le(&p[b - 1]));
                } else {
                    if a < j {
                        // p[a] <= p[j - 1] <= x
                        assert(mid[j - 1].le(&x));
                        if a < j - 1 {
                            assert(p[a].le(&p[j - 1]));
                            T::lemma_le_transitive(&p[a], &p[j - 1], &x);
                        }
                    }
                    if b > j {
                        // x <= p[b - 1]
                        assert(!mid[b - 1].le(&x));
                        T::lemma_le_total(&p[b - 1], &x);
                    }
                    if a < j && b > j {
                        T::lemma_le_transitive(&p[a], &x, &p[b - 1]);
                    }
                }
            }
        }
        i += 1;
    }
    assert(v@.subrange(0, n as int) =~= v@);
}

} // verus!
