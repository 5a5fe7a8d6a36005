//! The order on texts that `Ord for String` uses (code point by code point,
//! a proper prefix first), and sorting under it.

use vstd::prelude::*;

verus! {

/// `a` sorts strictly before `b`: lexicographic by code point.
pub open spec fn text_lt(a: Seq<char>, b: Seq<char>) -> bool
    decreases a.len(),
{
    if a.len() == 0 {
        b.len() > 0
    } else if b.len() == 0 {
        false
    } else if a[0] != b[0] {
        (a[0] as u32) < (b[0] as u32)
    } else {
        text_lt(a.drop_first(), b.drop_first())
    }
}

/// Every element sorts strictly before every later one.
pub open spec fn strictly_sorted(s: Seq<Seq<char>>) -> bool {
    forall|i: int, j: int| 0 <= i < j < s.len() ==> text_lt(#[trigger] s[i], #[trigger] s[j])
}

/// Every key sorts strictly before every later key.
pub open spec fn key_sorted<V>(s: Seq<(Seq<char>, V)>) -> bool {
    forall|i: int, j: int| 0 <= i < j < s.len() ==> text_lt(#[trigger] s[i].0, #[trigger] s[j].0)
}

/// `a` and `b` hold the same elements (ignoring order and repetition).
pub open spec fn same_elements<A>(a: Seq<A>, b: Seq<A>) -> bool {
    forall|x: A| a.contains(x) <==> b.contains(x)
}

/// No two entries share a key.
pub open spec fn keys_distinct<V>(s: Seq<(Seq<char>, V)>) -> bool {
    forall|i: int, j: int| 0 <= i < s.len() && 0 <= j < s.len() && i != j ==> s[i].0 != s[j].0
}

pub proof fn lemma_text_lt_irreflexive(a: Seq<char>)
    ensures
        !text_lt(a, a),
    decreases a.len(),
{
    if a.len() > 0 {
        lemma_text_lt_irreflexive(a.drop_first());
    }
}

pub proof fn lemma_text_lt_asymmetric(a: Seq<char>, b: Seq<char>)
    ensures
        text_lt(a, b) ==> !text_lt(b, a),
    decreases a.len(),
{
    if a.len() > 0 && b.len() > 0 && a[0] == b[0] {
        lemma_text_lt_asymmetric(a.drop_first(), b.drop_first());
    }
}

pub proof fn lemma_text_lt_transitive(a: Seq<char>, b: Seq<char>, c: Seq<char>)
    ensures
        text_lt(a, b) && text_lt(b, c) ==> text_lt(a, c),
    decreases a.len(),
{
    if a.len() > 0 && b.len() > 0 && c.len() > 0 {
        lemma_text_lt_transitive(a.drop_first(), b.drop_first(), c.drop_first());
    }
}

pub proof fn lemma_text_lt_total(a: Seq<char>, b: Seq<char>)
    ensures
        a != b ==> text_lt(a, b) || text_lt(b, a),
    decreases a.len(),
{
    if a.len() > 0 && b.len() > 0 {
        if a[0] == b[0] {
            lemma_text_lt_total(a.drop_first(), b.drop_first());
            if a.drop_first() == b.drop_first() {
                assert(a =~= seq![a[0]] + a.drop_first());
                assert(b =~= seq![b[0]] + b.drop_first());
            }
        } else {
            vstd::utf8::char_u32_cast(a[0], a[0] as u32);
            vstd::utf8::char_u32_cast(b[0], b[0] as u32);
            assert((a[0] as u32) != (b[0] as u32));
        }
    } else if a.len() == 0 && b.len() == 0 {
        assert(a =~= b);
    }
}

/// Two key-sorted sequences with the same elements are the same sequence:
/// the sorted arrangement does not depend on where the elements came from.
pub proof fn lemma_key_sorted_unique<V>(a: Seq<(Seq<char>, V)>, b: Seq<(Seq<char>, V)>)
    requires
        key_sorted(a),
        key_sorted(b),
        same_elements(a, b),
    ensures
        a == b,
    decreases a.len(),
{
    if a.len() == 0 {
        if b.len() > 0 {
            assert(b.contains(b[0]));
        }
        assert(a =~= b);
    } else {
        if b.len() == 0 {
            assert(a.contains(a[0]));
        }
        let x = a[0];
        let y = b[0];
        assert(a.contains(x));
        assert(b.contains(y));
        let j = choose|j: int| 0 <= j < b.len() && b[j] == x;
        let i = choose|i: int| 0 <= i < a.len() && a[i] == y;
        if i > 0 && j > 0 {
            lemma_text_lt_asymmetric(x.0, y.0);
        }
        assert(x == y);
        let a1 = a.drop_first();
        let b1 = b.drop_first();
        assert forall|z: (Seq<char>, V)| a1.contains(z) <==> b1.contains(z) by {
            if a1.contains(z) {
                let k = choose|k: int| 0 <= k < a1.len() && a1[k] == z;
                assert(a[k + 1] == z);
                lemma_text_lt_irreflexive(x.0);
                assert(z != x);
                assert(a.contains(z));
                let m = choose|m: int| 0 <= m < b.len() && b[m] == z;
                assert(m != 0);
                assert(b1[m - 1] == z);
            }
            if b1.contains(z) {
                let k = choose|k: int| 0 <= k < b1.len() && b1[k] == z;
                assert(b[k + 1] == z);
                lemma_text_lt_irreflexive(y.0);
                assert(z != y);
                assert(b.contains(z));
                let m = choose|m: int| 0 <= m < a.len() && a[m] == z;
                assert(m != 0);
                assert(a1[m - 1] == z);
            }
        }
        lemma_key_sorted_unique(a1, b1);
        assert(a =~= seq![x] + a1);
        assert(b =~= seq![y] + b1);
    }
}

/// Two strictly sorted sequences of texts with the same elements are equal.
pub proof fn lemma_sorted_unique(a: Seq<Seq<char>>, b: Seq<Seq<char>>)
    requires
        strictly_sorted(a),
        strictly_sorted(b),
        same_elements(a, b),
    ensures
        a == b,
    decreases a.len(),
{
    if a.len() == 0 {
        if b.len() > 0 {
            assert(b.contains(b[0]));
        }
        assert(a =~= b);
    } else {
        if b.len() == 0 {
            assert(a.contains(a[0]));
        }
        let x = a[0];
        let y = b[0];
        assert(a.contains(x));
        assert(b.contains(y));
        let j = choose|j: int| 0 <= j < b.len() && b[j] == x;
        let i = choose|i: int| 0 <= i < a.len() && a[i] == y;
        if i > 0 && j > 0 {
            lemma_text_lt_asymmetric(x, y);
        }
        assert(x == y);
        let a1 = a.drop_first();
        let b1 = b.drop_first();
        assert forall|z: Seq<char>| a1.contains(z) <==> b1.contains(z) by {
            if a1.contains(z) {
                let k = choose|k: int| 0 <= k < a1.len() && a1[k] == z;
                assert(a[k + 1] == z);
                lemma_text_lt_irreflexive(x);
                assert(a.contains(z));
                let m = choose|m: int| 0 <= m < b.len() && b[m] == z;
                assert(m != 0);
                assert(b1[m - 1] == z);
            }
            if b1.contains(z) {
                let k = choose|k: int| 0 <= k < b1.len() && b1[k] == z;
                assert(b[k + 1] == z);
                lemma_text_lt_irreflexive(y);
                assert(b.contains(z));
                let m = choose|m: int| 0 <= m < a.len() && a[m] == z;
                assert(m != 0);
                assert(a1[m - 1] == z);
            }
        }
        lemma_sorted_unique(a1, b1);
        assert(a =~= seq![x] + a1);
        assert(b =~= seq![y] + b1);
    }
}

/// The texts held by a vector of character vectors.
pub open spec fn texts_of(v: Seq<Vec<char>>) -> Seq<Seq<char>> {
    Seq::new(v.len(), |i: int| v[i]@)
}

/// Whether `a` sorts strictly before `b`.
pub fn text_less(a: &Vec<char>, b: &Vec<char>) -> (r: bool)
    ensures
        r == text_lt(a@, b@),
{
    let mut i: usize = 0;
    assert(a@.skip(0) =~= a@);
    assert(b@.skip(0) =~= b@);
    while i < a.len() && i < b.len() && a[i] == b[i]
        invariant
            i <= a.len(),
            i <= b.len(),
            text_lt(a@, b@) == text_lt(a@.skip(i as int), b@.skip(i as int)),
        decreases a.len() - i,
    {
        assert(a@.skip(i as int).drop_first() =~= a@.skip(i + 1));
        assert(b@.skip(i as int).drop_first() =~= b@.skip(i + 1));
        i += 1;
    }
    if i == a.len() {
        i < b.len()
    } else if i == b.len() {
        false
    } else {
        (a[i] as u32) < (b[i] as u32)
    }
}

/// An arrangement of the indices of `keys` under which the keys ascend
/// strictly; the keys must be pairwise distinct.
pub fn sorted_order(keys: &Vec<Vec<char>>) -> (order: Vec<usize>)
    requires
        forall|i: int, j: int|
            0 <= i < keys.len() && 0 <= j < keys.len() && i != j ==> keys@[i]@ != keys@[j]@,
    ensures
        order.len() == keys.len(),
        forall|k: int| 0 <= k < order.len() ==> order@[k] < keys.len(),
        forall|j: usize| j < keys.len() ==> #[trigger] order@.contains(j),
        forall|a: int, b: int|
            0 <= a < b < order.len() ==> text_lt(
                #[trigger] keys@[order@[a] as int]@,
                #[trigger] keys@[order@[b] as int]@,
            ),
{
    let n = keys.len();
    let mut order: Vec<usize> = Vec::new();
    let mut i: usize = 0;
    while i < n
        invariant
            i <= n,
            n == keys.len(),
            forall|i: int, j: int|
                0 <= i < keys.len() && 0 <= j < keys.len() && i != j ==> keys@[i]@ != keys@[j]@,
            order.len() == i,
            forall|k: int| 0 <= k < order.len() ==> order@[k] < i,
            forall|j: usize| j < i ==> #[trigger] order@.contains(j),
            forall|a: int, b: int|
                0 <= a < b < order.len() ==> text_lt(
                    #[trigger] keys@[order@[a] as int]@,
                    #[trigger] keys@[order@[b] as int]@,
                ),
        decreases n - i,
    {
        let mut p: usize = 0;
        while p < order.len() && text_less(&keys[order[p]], &keys[i])
            invariant
                p <= order.len(),
                order.len() == i,
                i < n,
                n == keys.len(),
                forall|k: int| 0 <= k < order.len() ==> order@[k] < i,
                forall|q: int| 0 <= q < p ==> text_lt(keys@[order@[q] as int]@, keys@[i as int]@),
            decreases order.len() - p,
        {
            p += 1;
        }
        let ghost old_order = order@;
        proof {
            if p < old_order.len() {
                let kp = keys@[old_order[p as int] as int]@;
                let x = keys@[i as int]@;
                assert(old_order[p as int] != i);
                lemma_text_lt_total(kp, x);
                assert forall|q: int| p <= q < old_order.len() implies text_lt(
                    x,
                    keys@[old_order[q] as int]@,
                ) by {
                    if q > p {
                        lemma_text_lt_transitive(x, kp, keys@[old_order[q] as int]@);
                    }
                }
            }
        }
        order.insert(p, i);
        proof {
            old_order.insert_ensures(p as int, i);
            assert forall|a: int, b: int| 0 <= a < b < order.len() implies text_lt(
                #[trigger] keys@[order@[a] as int]@,
                #[trigger] keys@[order@[b] as int]@,
            ) by {
                if b == p {
                    assert(order@[a] == old_order[a]);
                    assert(order@[b] == i);
                } else if a == p {
                    assert(order@[a] == i);
                    assert(order@[b] == old_order[b - 1]);
                } else if b < p {
                    assert(order@[a] == old_order[a]);
                    assert(order@[b] == old_order[b]);
                } else if a > p {
                    assert(order@[a] == old_order[a - 1]);
                    assert(order@[b] == old_order[b - 1]);
                } else {
                    assert(order@[a] == old_order[a]);
                    assert(order@[b] == old_order[b - 1]);
                }
            }
            assert forall|j: usize| j < i + 1 implies #[trigger] order@.contains(j) by {
                if j == i {
                    assert(order@[p as int] == i);
                } else {
                    assert(old_order.contains(j));
                    let q = choose|q: int| 0 <= q < old_order.len() && old_order[q] == j;
                    if q < p {
                        assert(order@[q] == j);
                    } else {
                        assert(order@[q + 1] == j);
                    }
                }
            }
            assert forall|k: int| 0 <= k < order.len() implies order@[k] < i + 1 by {
                if k < p {
                    assert(order@[k] == old_order[k]);
                } else if k > p {
                    assert(order@[k] == old_order[k - 1]);
                }
            }
        }
        i += 1;
    }
    order
}

/// The distinct texts of `items` in ascending order (sort, then drop
/// repeats).
pub fn sort_dedup(items: &Vec<Vec<char>>) -> (r: Vec<Vec<char>>)
    ensures
        strictly_sorted(texts_of(r@)),
        same_elements(texts_of(r@), texts_of(items@)),
{
    let mut r: Vec<Vec<char>> = Vec::new();
    let mut i: usize = 0;
    while i < items.len()
        invariant
            i <= items.len(),
            strictly_sorted(texts_of(r@)),
            same_elements(texts_of(r@), texts_of(items@.take(i as int))),
        decreases items.len() - i,
    {
        let x = &items[i];
        let mut p: usize = 0;
        while p < r.len() && text_less(&r[p], x)
            invariant
                p <= r.len(),
                forall|q: int| 0 <= q < p ==> text_lt(#[trigger] r@[q]@, x@),
            decreases r.len() - p,
        {
            p += 1;
        }
        let ghost old_r = texts_of(r@);
        let ghost before = texts_of(items@.take(i as int));
        let ghost after = texts_of(items@.take(i + 1));
        proof {
            assert(after =~= before.push(x@));
        }
        let dup = p < r.len() && crate::text::chars_eq(&r[p], x);
        if dup {
            proof {
                assert(old_r[p as int] == x@);
                assert forall|z: Seq<char>| old_r.contains(z) <==> after.contains(z) by {
                    if after.contains(z) {
                        let k = choose|k: int| 0 <= k < after.len() && after[k] == z;
                        if k < before.len() {
                            assert(before[k] == z);
                            assert(before.contains(z));
                        }
                    }
                    if old_r.contains(z) {
                        assert(before.contains(z));
                        let k = choose|k: int| 0 <= k < before.len() && before[k] == z;
                        assert(after[k] == z);
                    }
                }
            }
        } else {
            proof {
                if p < old_r.len() {
                    lemma_text_lt_total(old_r[p as int], x@);
                    assert(text_lt(x@, old_r[p as int]));
                    assert forall|q: int| p <= q < old_r.len() implies text_lt(x@, old_r[q]) by {
                        if q > p {
                            lemma_text_lt_transitive(x@, old_r[p as int], old_r[q]);
                        }
                    }
                }
            }
            r.insert(p, x.clone());
            proof {
                let nr = texts_of(r@);
                assert(nr =~= old_r.insert(p as int, x@));
                old_r.insert_ensures(p as int, x@);
                assert forall|a: int, b: int| 0 <= a < b < nr.len() implies text_lt(
                    #[trigger] nr[a],
                    #[trigger] nr[b],
                ) by {
                    if b == p {
                        assert(nr[a] == old_r[a]);
                    } else if a == p {
                        assert(nr[b] == old_r[b - 1]);
                    } else if b < p {
                        assert(nr[a] == old_r[a] && nr[b] == old_r[b]);
                    } else if a > p {
                        assert(nr[a] == old_r[a - 1] && nr[b] == old_r[b - 1]);
                    } else {
                        assert(nr[a] == old_r[a] && nr[b] == old_r[b - 1]);
                    }
                }
                assert forall|z: Seq<char>| nr.contains(z) <==> after.contains(z) by {
                    if nr.contains(z) {
                        let k = choose|k: int| 0 <= k < nr.len() && nr[k] == z;
                        if k == p {
                            assert(after[before.len() as int] == z);
                        } else {
                            let q = if k < p { k } else { k - 1 };
                            assert(old_r[q] == z);
                            assert(old_r.contains(z));
                            assert(before.contains(z));
                            let m = choose|m: int| 0 <= m < before.len() && before[m] == z;
                            assert(after[m] == z);
                        }
                    }
                    if after.contains(z) {
                        let k = choose|k: int| 0 <= k < after.len() && after[k] == z;
                        if k == before.len() {
                            assert(nr[p as int] == z);
                        } else {
                            assert(before[k] == z);
                            assert(before.contains(z));
                            assert(old_r.contains(z));
                            let q = choose|q: int| 0 <= q < old_r.len() && old_r[q] == z;
                            if q < p {
                                assert(nr[q] == z);
                            } else {
                                assert(nr[q + 1] == z);
                            }
                        }
                    }
                }
            }
        }
        i += 1;
    }
    assert(items@.take(items.len() as int) =~= items@);
    r
}

} // verus!
