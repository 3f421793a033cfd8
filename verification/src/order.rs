//! Sorting by an order that leaves equals in any order.

use vstd::prelude::*;
use vstd::seq_lib::*;

verus! {

/// A type whose values are sorted.
pub trait Ranked: DeepView + Sized {
    /// `a` stands before `b`.
    spec fn before(a: Self::V, b: Self::V) -> bool;

    fn is_before(&self, other: &Self) -> (r: bool)
        ensures
            r == Self::before(self.deep_view(), other.deep_view()),
    ;

    proof fn lemma_asymmetric(a: Self::V, b: Self::V)
        requires
            Self::before(a, b),
        ensures
            !Self::before(b, a),
    ;

    proof fn lemma_transitive(a: Self::V, b: Self::V, c: Self::V)
        requires
            !Self::before(b, a),
            !Self::before(c, b),
        ensures
            !Self::before(c, a),
    ;
}

/// No later value stands before an earlier one.
pub open spec fn in_order<T: Ranked>(s: Seq<T::V>) -> bool {
    forall|i: int, j: int| 0 <= i < j < s.len() ==> !T::before(#[trigger] s[j], #[trigger] s[i])
}

/// The same values, each as often, in order.
pub open spec fn is_sorting_of<T: Ranked>(sorted: Seq<T::V>, s: Seq<T::V>) -> bool {
    &&& in_order::<T>(sorted)
    &&& sorted.to_multiset() == s.to_multiset()
}

proof fn lemma_in_order_init<T: Ranked>(s: Seq<T::V>, v: T::V)
    requires
        in_order::<T>(s.push(v)),
    ensures
        in_order::<T>(s),
{
    assert forall|i: int, j: int| 0 <= i < j < s.len() implies !T::before(
        #[trigger] s[j],
        #[trigger] s[i],
    ) by {
        assert(s.push(v)[i] == s[i] && s.push(v)[j] == s[j]);
    }
}

/// No value of `a` stands before one of `b`.
spec fn none_before<T: Ranked>(a: Seq<T::V>, b: Seq<T::V>) -> bool {
    forall|i: int, j: int|
        0 <= i < a.len() && 0 <= j < b.len() ==> !T::before(#[trigger] a[i], #[trigger] b[j])
}

proof fn lemma_none_before_push<T: Ranked>(a: Seq<T::V>, v: T::V, b: Seq<T::V>, wide: Seq<T::V>)
    requires
        none_before::<T>(a, wide),
        b.len() <= wide.len(),
        b == wide.take(b.len() as int),
        forall|j: int| 0 <= j < b.len() ==> !T::before(v, #[trigger] b[j]),
    ensures
        none_before::<T>(a.push(v), b),
{
    assert forall|i: int, j: int| 0 <= i < a.push(v).len() && 0 <= j < b.len() implies !T::before(
        #[trigger] a.push(v)[i],
        #[trigger] b[j],
    ) by {
        assert(b[j] == wide[j]);
        if i < a.len() {
            assert(a.push(v)[i] == a[i]);
        }
    }
}

/// Takes two ordered vectors apart from behind; what comes out stands from the last to the first.
fn merge_from_behind<T: Ranked>(left: Vec<T>, right: Vec<T>) -> (r: Vec<T>)
    requires
        in_order::<T>(left.deep_view()),
        in_order::<T>(right.deep_view()),
    ensures
        in_order::<T>(r.deep_view().reverse()),
        r.deep_view().to_multiset() == left.deep_view().to_multiset().add(
            right.deep_view().to_multiset(),
        ),
{
    broadcast use group_to_multiset_ensures;

    let ghost total = left.deep_view().to_multiset().add(right.deep_view().to_multiset());
    let mut left = left;
    let mut right = right;
    let mut r: Vec<T> = Vec::new();
    assert(r.deep_view() =~= Seq::empty());
    assert(Seq::<T::V>::empty().to_multiset() =~= vstd::multiset::Multiset::empty()) by {
        assert(Seq::<T::V>::empty().to_multiset().len() == 0);
    }
    assert(total =~= r.deep_view().to_multiset().add(
        left.deep_view().to_multiset().add(right.deep_view().to_multiset()),
    ));
    while left.len() > 0 || right.len() > 0
        invariant
            in_order::<T>(left.deep_view()),
            in_order::<T>(right.deep_view()),
            in_order::<T>(r.deep_view().reverse()),
            none_before::<T>(r.deep_view(), left.deep_view()),
            none_before::<T>(r.deep_view(), right.deep_view()),
            total == r.deep_view().to_multiset().add(
                left.deep_view().to_multiset().add(right.deep_view().to_multiset()),
            ),
        decreases left.len() + right.len(),
    {
        let ghost l = left.deep_view();
        let ghost q = right.deep_view();
        let ghost done = r.deep_view();
        let from_left = if right.len() == 0 {
            true
        } else if left.len() == 0 {
            false
        } else {
            let a = &left[left.len() - 1];
            let b = &right[right.len() - 1];
            assert(l[l.len() - 1] == a.deep_view());
            assert(q[q.len() - 1] == b.deep_view());
            b.is_before(a)
        };
        let taken = if from_left {
            left.pop()
        } else {
            right.pop()
        };
        if let Some(x) = taken {
            let ghost v = x.deep_view();
            r.push(x);
            proof {
                assert(r.deep_view() =~= done.push(v));
                assert(done.push(v).reverse() =~= seq![v] + done.reverse());
                if from_left {
                    assert(l =~= left.deep_view().push(v));
                    lemma_in_order_init::<T>(left.deep_view(), v);
                    assert(l[l.len() - 1] == v);
                    assert forall|j: int| 0 <= j < q.len() implies !T::before(
                        v,
                        #[trigger] q[j],
                    ) by {
                        let last = q[q.len() - 1];
                        T::lemma_asymmetric(last, v);
                        if j < q.len() - 1 {
                            T::lemma_transitive(q[j], last, v);
                        }
                    }
                    assert(left.deep_view() =~= l.take(l.len() - 1));
                    assert forall|j: int| 0 <= j < left.deep_view().len() implies !T::before(
                        v,
                        #[trigger] left.deep_view()[j],
                    ) by {
                        assert(left.deep_view()[j] == l[j]);
                    }
                } else {
                    assert(q =~= right.deep_view().push(v));
                    lemma_in_order_init::<T>(right.deep_view(), v);
                    assert(q[q.len() - 1] == v);
                    assert forall|j: int| 0 <= j < l.len() implies !T::before(
                        v,
                        #[trigger] l[j],
                    ) by {
                        let last = l[l.len() - 1];
                        if j < l.len() - 1 {
                            T::lemma_transitive(l[j], last, v);
                        }
                    }
                    assert(right.deep_view() =~= q.take(q.len() - 1));
                    assert forall|j: int| 0 <= j < right.deep_view().len() implies !T::before(
                        v,
                        #[trigger] right.deep_view()[j],
                    ) by {
                        assert(right.deep_view()[j] == q[j]);
                    }
                }
                assert(l =~= l.take(l.len() as int) && q =~= q.take(q.len() as int));
                lemma_none_before_push::<T>(done, v, left.deep_view(), l);
                lemma_none_before_push::<T>(done, v, right.deep_view(), q);
                let rev = done.reverse();
                assert forall|i: int, j: int|
                    0 <= i < j < (seq![v] + rev).len() implies !T::before(
                    #[trigger] (seq![v] + rev)[j],
                    #[trigger] (seq![v] + rev)[i],
                ) by {
                    if i == 0 {
                        assert(rev[j - 1] == done[done.len() - j]);
                    } else {
                        assert(!T::before(rev[j - 1], rev[i - 1]));
                    }
                }
                broadcast use group_to_multiset_ensures;

                assert(total =~= r.deep_view().to_multiset().add(
                    left.deep_view().to_multiset().add(right.deep_view().to_multiset()),
                ));
            }
        }
    }
    proof {
        assert(left.deep_view() =~= Seq::empty());
        assert(right.deep_view() =~= Seq::empty());
        assert(total =~= r.deep_view().to_multiset());
    }
    r
}

fn reversed<T: DeepView>(v: Vec<T>) -> (r: Vec<T>)
    ensures
        r.deep_view() == v.deep_view().reverse(),
{
    let ghost all = v.deep_view();
    let mut v = v;
    let mut r: Vec<T> = Vec::new();
    while v.len() > 0
        invariant
            v@.len() + r@.len() == all.len(),
            v.deep_view() == all.take(v@.len() as int),
            r.deep_view() == all.reverse().take(r@.len() as int),
        decreases v.len(),
    {
        let ghost before = v.deep_view();
        let ghost n = r@.len() as int;
        if let Some(x) = v.pop() {
            assert(before[before.len() - 1] == x.deep_view());
            r.push(x);
            assert(v.deep_view() =~= all.take(v@.len() as int));
            assert(r.deep_view() =~= all.reverse().take(n + 1));
        }
    }
    assert(r.deep_view() =~= all.reverse());
    r
}

/// Sorts.
pub fn sort<T: Ranked>(v: Vec<T>) -> (r: Vec<T>)
    ensures
        is_sorting_of::<T>(r.deep_view(), v.deep_view()),
    decreases v.len(),
{
    let n: usize = v.len();
    if n < 2 {
        return v;
    }
    let ghost all = v.deep_view();
    let mut left = v;
    let right = left.split_off(n / 2);
    proof {
        assert(all =~= left.deep_view() + right.deep_view());
        lemma_multiset_commutative(left.deep_view(), right.deep_view());
    }
    let left = sort(left);
    let right = sort(right);
    let merged = merge_from_behind(left, right);
    proof {
        merged.deep_view().lemma_reverse_to_multiset();
    }
    reversed(merged)
}

} // verus!
