//! Stable sorting by a key.

use vstd::prelude::*;

verus! {

/// A key to sort by.
pub trait SortKey: Sized {
    /// Whether this key is sorted before `other`.
    spec fn before(&self, other: &Self) -> bool;

    /// No key is sorted before itself.
    proof fn before_is_irreflexive(&self)
        ensures
            !self.before(self),
    ;

    /// What is before a key that is before a third one is before the third.
    proof fn before_is_transitive(&self, b: &Self, c: &Self)
        requires
            self.before(b),
            b.before(c),
        ensures
            self.before(c),
    ;

    /// What is not before a key that is not before a third one is not before
    /// the third.
    proof fn not_before_is_transitive(&self, b: &Self, c: &Self)
        requires
            !self.before(b),
            !b.before(c),
        ensures
            !self.before(c),
    ;

    /// Whether this key is sorted before `other`.
    fn is_before(&self, other: &Self) -> (r: bool)
        ensures
            r == self.before(other),
    ;
}

/// Whether the item at `a` is sorted ahead of the item at `b`: its key is
/// before the other key, or the keys tie and it came first.
pub open spec fn ahead<K: SortKey>(keys: Seq<K>, a: int, b: int) -> bool {
    keys[a].before(&keys[b]) || (!keys[b].before(&keys[a]) && a < b)
}

/// Whether every item of `p` is sorted ahead of those behind it.
pub open spec fn in_order<K: SortKey>(keys: Seq<K>, p: Seq<usize>) -> bool {
    forall|i: int, j: int|
        0 <= i < j < p.len() ==> ahead(keys, #[trigger] p[i] as int, #[trigger] p[j] as int)
}

/// Whether `p` lists the positions of `keys` in the order of a stable sort.
pub open spec fn is_stable_order<K: SortKey>(keys: Seq<K>, p: Seq<usize>) -> bool {
    &&& p.len() == keys.len()
    &&& forall|i: int| 0 <= i < p.len() ==> (#[trigger] p[i]) < keys.len()
    &&& in_order(keys, p)
}

/// Whether the position `a` occurs in `p`.
pub open spec fn lists(p: Seq<usize>, a: int) -> bool {
    exists|i: int| 0 <= i < p.len() && #[trigger] p[i] == a
}

/// The items at the positions `p`.
pub open spec fn picked<T>(items: Seq<T>, p: Seq<usize>) -> Seq<T> {
    p.map_values(|i: usize| items[i as int])
}

proof fn ahead_is_transitive<K: SortKey>(keys: Seq<K>, a: int, b: int, c: int)
    requires
        ahead(keys, a, b),
        ahead(keys, b, c),
    ensures
        ahead(keys, a, c),
{
    let (ka, kb, kc) = (keys[a], keys[b], keys[c]);
    if ka.before(&kb) {
        if kb.before(&kc) {
            ka.before_is_transitive(&kb, &kc);
        } else if !ka.before(&kc) {
            ka.not_before_is_transitive(&kc, &kb);
        }
    } else if kb.before(&kc) {
        if !ka.before(&kc) {
            kb.not_before_is_transitive(&ka, &kc);
        }
    } else {
        kc.not_before_is_transitive(&kb, &ka);
    }
}

proof fn ahead_is_irreflexive<K: SortKey>(keys: Seq<K>, a: int)
    ensures
        !ahead(keys, a, a),
{
    keys[a].before_is_irreflexive();
}

proof fn ahead_of_all<K: SortKey>(keys: Seq<K>, x: int, p: Seq<usize>, from: int)
    requires
        in_order(keys, p),
        0 <= from < p.len(),
        ahead(keys, x, p[from] as int),
    ensures
        forall|y: int| from <= y < p.len() ==> ahead(keys, x, #[trigger] p[y] as int),
{
    assert forall|y: int| from <= y < p.len() implies ahead(keys, x, #[trigger] p[y] as int) by {
        if y > from {
            ahead_is_transitive(keys, x, p[from] as int, p[y] as int);
        }
    }
}

/// Merges two lists in order, where every position in the first is below every
/// position in the second.
fn merge<K: SortKey>(keys: &Vec<K>, a: &Vec<usize>, b: &Vec<usize>, lo: usize, mid: usize, hi: usize) -> (out:
    Vec<usize>)
    requires
        lo <= mid <= hi <= keys@.len(),
        a@.len() + b@.len() == hi - lo,
        forall|i: int| 0 <= i < a@.len() ==> lo <= #[trigger] a@[i] < mid,
        forall|i: int| 0 <= i < b@.len() ==> mid <= #[trigger] b@[i] < hi,
        in_order(keys@, a@),
        in_order(keys@, b@),
    ensures
        out@.len() == hi - lo,
        forall|i: int| 0 <= i < out@.len() ==> lo <= #[trigger] out@[i] < hi,
        in_order(keys@, out@),
{
    let mut out: Vec<usize> = Vec::new();
    let mut i: usize = 0;
    let mut j: usize = 0;
    while i < a.len() || j < b.len()
        invariant
            lo <= mid <= hi <= keys@.len(),
            a@.len() + b@.len() == hi - lo,
            forall|x: int| 0 <= x < a@.len() ==> lo <= #[trigger] a@[x] < mid,
            forall|x: int| 0 <= x < b@.len() ==> mid <= #[trigger] b@[x] < hi,
            in_order(keys@, a@),
            in_order(keys@, b@),
            i <= a@.len(),
            j <= b@.len(),
            out@.len() == i + j,
            forall|x: int| 0 <= x < out@.len() ==> lo <= #[trigger] out@[x] < hi,
            in_order(keys@, out@),
            forall|x: int, y: int|
                0 <= x < out@.len() && i <= y < a@.len() ==> ahead(
                    keys@,
                    #[trigger] out@[x] as int,
                    #[trigger] a@[y] as int,
                ),
            forall|x: int, y: int|
                0 <= x < out@.len() && j <= y < b@.len() ==> ahead(
                    keys@,
                    #[trigger] out@[x] as int,
                    #[trigger] b@[y] as int,
                ),
        decreases a.len() + b.len() - i - j,
    {
        let from_a: bool = if i == a.len() {
            false
        } else if j == b.len() {
            true
        } else {
            !keys[b[j]].is_before(&keys[a[i]])
        };
        if from_a {
            proof {
                if j < b@.len() {
                    ahead_of_all(keys@, a@[i as int] as int, b@, j as int);
                }
            }
            out.push(a[i]);
            i = i + 1;
        } else {
            proof {
                if i < a@.len() {
                    ahead_of_all(keys@, b@[j as int] as int, a@, i as int);
                }
            }
            out.push(b[j]);
            j = j + 1;
        }
    }
    out
}

fn sort_range<K: SortKey>(keys: &Vec<K>, lo: usize, hi: usize) -> (out: Vec<usize>)
    requires
        lo <= hi <= keys@.len(),
    ensures
        out@.len() == hi - lo,
        forall|i: int| 0 <= i < out@.len() ==> lo <= #[trigger] out@[i] < hi,
        in_order(keys@, out@),
    decreases hi - lo,
{
    if hi - lo <= 1 {
        let mut out: Vec<usize> = Vec::new();
        if lo < hi {
            out.push(lo);
        }
        return out;
    }
    let mid: usize = lo + (hi - lo) / 2;
    let a: Vec<usize> = sort_range(keys, lo, mid);
    let b: Vec<usize> = sort_range(keys, mid, hi);
    merge(keys, &a, &b, lo, mid, hi)
}

/// The positions of `keys` in the order of a stable sort.
pub fn stable_order<K: SortKey>(keys: &Vec<K>) -> (p: Vec<usize>)
    ensures
        is_stable_order(keys@, p@),
{
    sort_range(keys, 0, keys.len())
}

/// A stable order lists every position exactly once.
pub proof fn stable_order_is_permutation<K: SortKey>(keys: Seq<K>, p: Seq<usize>)
    requires
        is_stable_order(keys, p),
    ensures
        p.no_duplicates(),
        forall|a: int| 0 <= a < keys.len() ==> #[trigger] lists(p, a),
{
    let q = p.map_values(|x: usize| x as int);
    assert forall|i: int, j: int| 0 <= i < j < p.len() implies p[i] != p[j] by {
        ahead_is_irreflexive(keys, p[i] as int);
    }
    assert forall|i: int, j: int| 0 <= i < q.len() && 0 <= j < q.len() && i != j implies q[i] != q[j] by {
        if i < j {
            assert(p[i] != p[j]);
        } else {
            assert(p[j] != p[i]);
        }
    }
    q.unique_seq_to_set();
    vstd::set_lib::lemma_int_range(0, keys.len() as int);
    let all = vstd::set_lib::set_int_range(0, keys.len() as int);
    assert(q.to_set().subset_of(all));
    vstd::set_lib::lemma_subset_equality(q.to_set(), all);
    assert forall|a: int| 0 <= a < keys.len() implies #[trigger] lists(p, a) by {
        assert(all.contains(a));
        assert(q.contains(a));
        let i = choose|i: int| 0 <= i < q.len() && q[i] == a;
        assert(p[i] == a);
    }
}

/// There is only one stable order.
pub proof fn stable_order_is_unique<K: SortKey>(keys: Seq<K>, p: Seq<usize>, q: Seq<usize>)
    requires
        is_stable_order(keys, p),
        is_stable_order(keys, q),
    ensures
        p == q,
{
    agree_up_to(keys, p, q, p.len() as int);
    assert(p.take(p.len() as int) == p);
    assert(q.take(p.len() as int) == q);
}

proof fn agree_up_to<K: SortKey>(keys: Seq<K>, p: Seq<usize>, q: Seq<usize>, k: int)
    requires
        is_stable_order(keys, p),
        is_stable_order(keys, q),
        0 <= k <= p.len(),
    ensures
        p.take(k) == q.take(k),
    decreases k,
{
    if k > 0 {
        agree_up_to(keys, p, q, k - 1);
        stable_order_is_permutation(keys, p);
        stable_order_is_permutation(keys, q);
        let x = p[k - 1];
        let y = q[k - 1];
        if x != y {
            let i = choose|i: int| 0 <= i < p.len() && #[trigger] p[i] == y as int;
            let j = choose|j: int| 0 <= j < q.len() && #[trigger] q[j] == x as int;
            assert(lists(p, y as int) && lists(q, x as int));
            if i < k - 1 {
                assert(p.take(k - 1)[i] == q.take(k - 1)[i]);
                assert(q[i] == q[k - 1]);
            }
            if j < k - 1 {
                assert(p.take(k - 1)[j] == q.take(k - 1)[j]);
                assert(p[j] == p[k - 1]);
            }
            assert(ahead(keys, p[k - 1] as int, p[i] as int));
            assert(ahead(keys, q[k - 1] as int, q[j] as int));
            ahead_is_transitive(keys, x as int, y as int, x as int);
            ahead_is_irreflexive(keys, x as int);
        }
        assert(p.take(k) == p.take(k - 1).push(x));
        assert(q.take(k) == q.take(k - 1).push(y));
    }
}

/// Sorts in the opposite direction; items whose keys tie stay as they came.
pub struct Descending<K: SortKey>(pub K);

impl<K: SortKey> SortKey for Descending<K> {
    open spec fn before(&self, other: &Self) -> bool {
        other.0.before(&self.0)
    }

    proof fn before_is_irreflexive(&self) {
        self.0.before_is_irreflexive();
    }

    proof fn before_is_transitive(&self, b: &Self, c: &Self) {
        c.0.before_is_transitive(&b.0, &self.0);
    }

    proof fn not_before_is_transitive(&self, b: &Self, c: &Self) {
        c.0.not_before_is_transitive(&b.0, &self.0);
    }

    fn is_before(&self, other: &Self) -> bool {
        other.0.is_before(&self.0)
    }
}

impl SortKey for u64 {
    open spec fn before(&self, other: &Self) -> bool {
        *self < *other
    }

    proof fn before_is_irreflexive(&self) {
    }

    proof fn before_is_transitive(&self, b: &Self, c: &Self) {
    }

    proof fn not_before_is_transitive(&self, b: &Self, c: &Self) {
    }

    fn is_before(&self, other: &Self) -> bool {
        *self < *other
    }
}

impl SortKey for i64 {
    open spec fn before(&self, other: &Self) -> bool {
        *self < *other
    }

    proof fn before_is_irreflexive(&self) {
    }

    proof fn before_is_transitive(&self, b: &Self, c: &Self) {
    }

    proof fn not_before_is_transitive(&self, b: &Self, c: &Self) {
    }

    fn is_before(&self, other: &Self) -> bool {
        *self < *other
    }
}

impl SortKey for u128 {
    open spec fn before(&self, other: &Self) -> bool {
        *self < *other
    }

    proof fn before_is_irreflexive(&self) {
    }

    proof fn before_is_transitive(&self, b: &Self, c: &Self) {
    }

    proof fn not_before_is_transitive(&self, b: &Self, c: &Self) {
    }

    fn is_before(&self, other: &Self) -> bool {
        *self < *other
    }
}

impl SortKey for String {
    open spec fn before(&self, other: &Self) -> bool {
        crate::text::text_before(self@, other@)
    }

    proof fn before_is_irreflexive(&self) {
        crate::text::text_order_is_irreflexive(self@);
    }

    proof fn before_is_transitive(&self, b: &Self, c: &Self) {
        crate::text::text_order_is_transitive(self@, b@, c@);
    }

    proof fn not_before_is_transitive(&self, b: &Self, c: &Self) {
        if self.before(c) {
            crate::text::text_order_is_total(self@, b@);
            crate::text::text_order_is_total(b@, c@);
            if self@ != b@ && b@ != c@ {
                crate::text::text_order_is_transitive(b@, self@, c@);
            }
        }
    }

    fn is_before(&self, other: &Self) -> bool {
        crate::text::is_text_before(self.as_str(), other.as_str())
    }
}

} // verus!
