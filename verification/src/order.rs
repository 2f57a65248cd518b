//! Putting the heaviest first, with those of equal weight left in their order.

use vstd::prelude::*;

verus! {

/// Something that has a weight.
pub trait Weighed: Sized {
    spec fn weight(&self) -> u64;

    fn get_weight(&self) -> (r: u64)
        ensures
            r == self.weight(),
    ;
}

/// The elements of weight `w`, in order.
pub open spec fn of_weight<T: Weighed>(s: Seq<T>, w: u64) -> Seq<T> {
    s.filter(|x: T| x.weight() == w)
}

/// No element is heavier than one before it.
pub open spec fn heaviest_first<T: Weighed>(s: Seq<T>) -> bool {
    forall|i: int, j: int|
        0 <= i <= j < s.len() ==> (#[trigger] s[i]).weight() >= (#[trigger] s[j]).weight()
}

/// `after` is `before` with the heaviest first, and the elements of each weight in
/// the order in which they were.
pub open spec fn ordered_from<T: Weighed>(before: Seq<T>, after: Seq<T>) -> bool {
    &&& heaviest_first(after)
    &&& forall|w: u64| #[trigger] of_weight(after, w) == of_weight(before, w)
}

proof fn lemma_none_of_weight<T: Weighed>(s: Seq<T>, w: u64)
    requires
        forall|i: int| 0 <= i < s.len() ==> (#[trigger] s[i]).weight() != w,
    ensures
        of_weight(s, w) == Seq::<T>::empty(),
    decreases s.len(),
{
    reveal(Seq::filter);
    if s.len() > 0 {
        lemma_none_of_weight(s.drop_last(), w);
        assert(s[s.len() - 1].weight() != w);
    }
    assert(of_weight(s, w) =~= Seq::<T>::empty());
}

proof fn lemma_of_weight_one<T: Weighed>(x: T, w: u64)
    ensures
        of_weight(seq![x], w) == if x.weight() == w {
            seq![x]
        } else {
            Seq::empty()
        },
{
    reveal(Seq::filter);
    let s = seq![x];
    lemma_none_of_weight(s.drop_last(), w);
    assert(s.last() == x);
    if x.weight() == w {
        assert(of_weight(s, w) == of_weight(s.drop_last(), w).push(x));
        assert(of_weight(s, w) =~= seq![x]);
    } else {
        assert(of_weight(s, w) == of_weight(s.drop_last(), w));
    }
}

proof fn lemma_of_weight_add<T: Weighed>(a: Seq<T>, b: Seq<T>, w: u64)
    ensures
        of_weight(a + b, w) == of_weight(a, w) + of_weight(b, w),
{
    Seq::filter_distributes_over_add(a, b, |x: T| x.weight() == w);
}

proof fn lemma_reverse_push<T>(s: Seq<T>, x: T)
    ensures
        s.push(x).reverse() == seq![x] + s.reverse(),
{
    assert(s.push(x).reverse() =~= seq![x] + s.reverse());
}

/// Taking the last of `s` and putting it before `tail` keeps the elements of each
/// weight in order.
proof fn lemma_move_last<T: Weighed>(s: Seq<T>, tail: Seq<T>, w: u64)
    requires
        s.len() > 0,
    ensures
        of_weight(s, w) + of_weight(tail, w) == of_weight(s.drop_last(), w) + of_weight(
            seq![s.last()] + tail,
            w,
        ),
{
    let x = s.last();
    assert(s =~= s.drop_last() + seq![x]);
    lemma_of_weight_add(s.drop_last(), seq![x], w);
    lemma_of_weight_add(seq![x], tail, w);
    assert(of_weight(s, w) + of_weight(tail, w) =~= of_weight(s.drop_last(), w) + of_weight(
        seq![x] + tail,
        w,
    ));
}

/// The list in reverse order.
pub(crate) fn reversed<T>(list: Vec<T>) -> (r: Vec<T>)
    ensures
        r@ == list@.reverse(),
{
    let mut from = list;
    let mut out: Vec<T> = Vec::new();
    let ghost all = list@;
    while from.len() > 0
        invariant
            from@ == all.take(from@.len() as int),
            from@.len() + out@.len() == all.len(),
            forall|i: int| 0 <= i < out@.len() ==> #[trigger] out@[i] == all[all.len() - 1 - i],
        decreases from.len(),
    {
        let ghost n = from@.len() as int;
        match from.pop() {
            Some(x) => {
                assert(x == all[n - 1]);
                out.push(x);
                assert(from@ =~= all.take(n - 1));
            },
            None => {},
        }
    }
    assert(out@ =~= all.reverse());
    out
}

/// The state of a merge: `left` and `right` still stand before `tail`.
spec fn merging<T: Weighed>(left: Seq<T>, right: Seq<T>, tail: Seq<T>) -> bool {
    &&& heaviest_first(left)
    &&& heaviest_first(right)
    &&& heaviest_first(tail)
    &&& forall|i: int, j: int|
        0 <= i < left.len() && 0 <= j < tail.len() ==> (#[trigger] left[i]).weight() >= (
        #[trigger] tail[j]).weight()
    &&& forall|i: int, j: int|
        0 <= i < right.len() && 0 <= j < tail.len() ==> (#[trigger] right[i]).weight() >= (
        #[trigger] tail[j]).weight()
}

/// The last of `left`, which is no heavier than any of `right`, goes before `tail`.
proof fn lemma_merge_left<T: Weighed>(left: Seq<T>, right: Seq<T>, tail: Seq<T>)
    requires
        merging(left, right, tail),
        left.len() > 0,
        forall|i: int|
            0 <= i < right.len() ==> (#[trigger] right[i]).weight() >= left.last().weight(),
    ensures
        merging(left.drop_last(), right, seq![left.last()] + tail),
{
    let front = left.drop_last();
    let x = left[left.len() - 1];
    let longer = seq![x] + tail;
    assert forall|i: int, j: int| 0 <= i <= j < front.len() implies (
    #[trigger] front[i]).weight() >= (#[trigger] front[j]).weight() by {
        assert(left[i].weight() >= left[j].weight());
    }
    assert forall|i: int, j: int| 0 <= i <= j < longer.len() implies (
    #[trigger] longer[i]).weight() >= (#[trigger] longer[j]).weight() by {
        if i == 0 && j > 0 {
            assert(x.weight() >= tail[j - 1].weight());
        } else if i > 0 {
            assert(tail[i - 1].weight() >= tail[j - 1].weight());
        }
    }
    assert forall|i: int, j: int| 0 <= i < front.len() && 0 <= j < longer.len() implies (
    #[trigger] front[i]).weight() >= (#[trigger] longer[j]).weight() by {
        assert(left[i].weight() >= x.weight());
        if j > 0 {
            assert(left[i].weight() >= tail[j - 1].weight());
        }
    }
    assert forall|i: int, j: int| 0 <= i < right.len() && 0 <= j < longer.len() implies (
    #[trigger] right[i]).weight() >= (#[trigger] longer[j]).weight() by {
        if j > 0 {
            assert(right[i].weight() >= tail[j - 1].weight());
        }
    }
}

proof fn lemma_merging_swap<T: Weighed>(left: Seq<T>, right: Seq<T>, tail: Seq<T>)
    requires
        merging(left, right, tail),
    ensures
        merging(right, left, tail),
{
}

/// Merges two lists that each have the heaviest first; of those of equal weight the
/// ones of `a` come first.
fn merge<T: Weighed>(a: Vec<T>, b: Vec<T>) -> (r: Vec<T>)
    requires
        heaviest_first(a@),
        heaviest_first(b@),
    ensures
        ordered_from(a@ + b@, r@),
        r@.len() == a@.len() + b@.len(),
{
    let mut left = a;
    let mut right = b;
    let mut back: Vec<T> = Vec::new();
    assert forall|w: u64| of_weight(a@, w) + of_weight(b@, w) == #[trigger] of_weight(left@, w)
        + of_weight(right@, w) + of_weight(back@.reverse(), w) by {
        lemma_none_of_weight(back@.reverse(), w);
    }
    while left.len() > 0 || right.len() > 0
        invariant
            merging(left@, right@, back@.reverse()),
            left@.len() + right@.len() + back@.len() == a@.len() + b@.len(),
            forall|w: u64|
                of_weight(a@, w) + of_weight(b@, w) == #[trigger] of_weight(left@, w)
                    + of_weight(right@, w) + of_weight(back@.reverse(), w),
        decreases left.len() + right.len(),
    {
        let ghost l = left@;
        let ghost r = right@;
        let ghost tail = back@.reverse();
        let take_right = if left.len() == 0 {
            true
        } else if right.len() == 0 {
            false
        } else {
            right[right.len() - 1].get_weight() <= left[left.len() - 1].get_weight()
        };
        if take_right {
            proof {
                lemma_merging_swap(l, r, tail);
                assert forall|i: int| 0 <= i < l.len() implies (#[trigger] l[i]).weight()
                    >= r.last().weight() by {
                    assert(l[i].weight() >= l[l.len() - 1].weight());
                }
                lemma_merge_left(r, l, tail);
                lemma_merging_swap(r.drop_last(), l, seq![r.last()] + tail);
            }
            match right.pop() {
                Some(x) => {
                    let ghost before = back@;
                    back.push(x);
                    proof {
                        lemma_reverse_push(before, x);
                        assert(right@ =~= r.drop_last());
                        assert forall|w: u64|
                            of_weight(a@, w) + of_weight(b@, w) == #[trigger] of_weight(left@, w)
                                + of_weight(right@, w) + of_weight(back@.reverse(), w) by {
                            lemma_move_last(r, tail, w);
                            assert(of_weight(l, w) + of_weight(r, w) + of_weight(tail, w)
                                =~= of_weight(l, w) + (of_weight(r, w) + of_weight(tail, w)));
                            assert(of_weight(l, w) + of_weight(right@, w) + of_weight(
                                back@.reverse(),
                                w,
                            ) =~= of_weight(l, w) + (of_weight(right@, w) + of_weight(
                                back@.reverse(),
                                w,
                            )));
                        }
                    }
                },
                None => {},
            }
        } else {
            proof {
                assert forall|i: int| 0 <= i < r.len() implies (#[trigger] r[i]).weight()
                    >= l.last().weight() && r[i].weight() != l.last().weight() by {
                    assert(r[i].weight() >= r[r.len() - 1].weight());
                }
                lemma_merge_left(l, r, tail);
            }
            match left.pop() {
                Some(x) => {
                    let ghost before = back@;
                    back.push(x);
                    proof {
                        lemma_reverse_push(before, x);
                        assert(left@ =~= l.drop_last());
                        assert forall|w: u64|
                            of_weight(a@, w) + of_weight(b@, w) == #[trigger] of_weight(left@, w)
                                + of_weight(right@, w) + of_weight(back@.reverse(), w) by {
                            lemma_move_past(l, r, tail, w);
                        }
                    }
                },
                None => {},
            }
        }
    }
    let ghost tail = back@.reverse();
    assert forall|w: u64| #[trigger] of_weight(tail, w) == of_weight(a@ + b@, w) by {
        lemma_of_weight_add(a@, b@, w);
        lemma_none_of_weight(left@, w);
        lemma_none_of_weight(right@, w);
        assert(of_weight(left@, w) + of_weight(right@, w) + of_weight(tail, w) =~= of_weight(
            tail,
            w,
        ));
    }
    reversed(back)
}

/// The last of `left` may go past `right` where that holds none of its weight.
proof fn lemma_move_past<T: Weighed>(left: Seq<T>, right: Seq<T>, tail: Seq<T>, w: u64)
    requires
        left.len() > 0,
        forall|i: int|
            0 <= i < right.len() ==> (#[trigger] right[i]).weight() != left.last().weight(),
    ensures
        of_weight(left, w) + of_weight(right, w) + of_weight(tail, w) == of_weight(
            left.drop_last(),
            w,
        ) + of_weight(right, w) + of_weight(seq![left.last()] + tail, w),
{
    let x = left.last();
    let front = left.drop_last();
    assert(left =~= front + seq![x]);
    lemma_of_weight_add(front, seq![x], w);
    lemma_of_weight_add(seq![x], tail, w);
    lemma_of_weight_one(x, w);
    if x.weight() == w {
        lemma_none_of_weight(right, w);
    }
    assert(of_weight(left, w) + of_weight(right, w) + of_weight(tail, w) =~= of_weight(front, w)
        + of_weight(right, w) + of_weight(seq![x] + tail, w));
}

/// Puts the heaviest first, and leaves those of equal weight in their order.
pub fn sort_heaviest_first<T: Weighed>(items: Vec<T>) -> (r: Vec<T>)
    ensures
        ordered_from(items@, r@),
        r@.len() == items@.len(),
    decreases items@.len(),
{
    if items.len() < 2 {
        return items;
    }
    let ghost all = items@;
    let mut first = items;
    let half: usize = first.len() / 2;
    let second = first.split_off(half);
    let ghost head = first@;
    let ghost tail = second@;
    assert(all =~= head + tail);
    let first = sort_heaviest_first(first);
    let second = sort_heaviest_first(second);
    let r = merge(first, second);
    assert forall|w: u64| #[trigger] of_weight(r@, w) == of_weight(all, w) by {
        lemma_of_weight_add(head, tail, w);
        lemma_of_weight_add(first@, second@, w);
        assert(of_weight(r@, w) == of_weight(first@ + second@, w));
        assert(of_weight(first@, w) == of_weight(head, w));
        assert(of_weight(second@, w) == of_weight(tail, w));
    }
    r
}

/// There is one such order: two lists that have the heaviest first, and the same
/// elements of each weight in the same order, are the same list.
pub proof fn law_order_unique<T: Weighed>(a: Seq<T>, b: Seq<T>)
    requires
        heaviest_first(a),
        heaviest_first(b),
        forall|w: u64| #[trigger] of_weight(a, w) == of_weight(b, w),
    ensures
        a == b,
    decreases a.len(),
{
    if a.len() == 0 {
        if b.len() > 0 {
            lemma_first_of_weight(b);
            assert(of_weight(a, b[0].weight()).len() > 0);
            lemma_none_of_weight(a, b[0].weight());
        }
        assert(a =~= b);
    } else {
        lemma_first_of_weight(a);
        let w = a[0].weight();
        assert(of_weight(a, w) == of_weight(b, w));
        if b.len() == 0 {
            lemma_none_of_weight(b, w);
        }
        lemma_first_of_weight(b);
        let v = b[0].weight();
        assert(of_weight(a, v) == of_weight(b, v));
        if w > v {
            assert forall|i: int| 0 <= i < b.len() implies (#[trigger] b[i]).weight() != w by {
                assert(b[0].weight() >= b[i].weight());
            }
            lemma_none_of_weight(b, w);
        }
        if v > w {
            assert forall|i: int| 0 <= i < a.len() implies (#[trigger] a[i]).weight() != v by {
                assert(a[0].weight() >= a[i].weight());
            }
            lemma_none_of_weight(a, v);
        }
        assert(a[0] == b[0]);
        let x = a[0];
        let at = a.drop_first();
        let bt = b.drop_first();
        assert(a =~= seq![x] + at);
        assert(b =~= seq![x] + bt);
        assert forall|w: u64| #[trigger] of_weight(at, w) == of_weight(bt, w) by {
            lemma_of_weight_add(seq![x], at, w);
            lemma_of_weight_add(seq![x], bt, w);
            let one = of_weight(seq![x], w);
            assert(of_weight(a, w) == of_weight(b, w));
            assert(of_weight(at, w) =~= of_weight(a, w).skip(one.len() as int));
            assert(of_weight(bt, w) =~= of_weight(b, w).skip(one.len() as int));
        }
        assert(heaviest_first(at)) by {
            assert forall|i: int, j: int| 0 <= i <= j < at.len() implies (
            #[trigger] at[i]).weight() >= (#[trigger] at[j]).weight() by {
                assert(a[i + 1].weight() >= a[j + 1].weight());
            }
        }
        assert(heaviest_first(bt)) by {
            assert forall|i: int, j: int| 0 <= i <= j < bt.len() implies (
            #[trigger] bt[i]).weight() >= (#[trigger] bt[j]).weight() by {
                assert(b[i + 1].weight() >= b[j + 1].weight());
            }
        }
        law_order_unique(at, bt);
    }
}

proof fn lemma_first_of_weight<T: Weighed>(s: Seq<T>)
    ensures
        s.len() > 0 ==> of_weight(s, s[0].weight()).len() > 0 && of_weight(s, s[0].weight())[0]
            == s[0],
{
    if s.len() > 0 {
        let x = s[0];
        assert(s =~= seq![x] + s.drop_first());
        lemma_of_weight_add(seq![x], s.drop_first(), x.weight());
        lemma_of_weight_one(x, x.weight());
    }
}

proof fn lemma_count_of_weight<T: Weighed>(s: Seq<T>, x: T)
    ensures
        of_weight(s, x.weight()).to_multiset().count(x) == s.to_multiset().count(x),
    decreases s.len(),
{
    broadcast use vstd::seq_lib::group_to_multiset_ensures;

    reveal(Seq::filter);
    let kept = of_weight(s, x.weight());
    if s.len() == 0 {
        assert(kept =~= s);
    } else {
        let front = s.drop_last();
        lemma_count_of_weight(front, x);
        assert(s =~= front.push(s.last()));
        assert(kept == if s.last().weight() == x.weight() {
            of_weight(front, x.weight()).push(s.last())
        } else {
            of_weight(front, x.weight())
        });
    }
}

/// Putting the heaviest first loses nothing and adds nothing.
pub proof fn law_order_keeps_all<T: Weighed>(before: Seq<T>, after: Seq<T>)
    requires
        ordered_from(before, after),
    ensures
        after.to_multiset() == before.to_multiset(),
{
    assert forall|x: T| #[trigger] after.to_multiset().count(x) == before.to_multiset().count(
        x,
    ) by {
        lemma_count_of_weight(before, x);
        lemma_count_of_weight(after, x);
        assert(of_weight(after, x.weight()) == of_weight(before, x.weight()));
    }
    assert(after.to_multiset() =~= before.to_multiset());
}

proof fn lemma_filter_alike<T: Weighed>(s: Seq<T>, w: u64, alike: spec_fn(T) -> bool)
    requires
        forall|x: T| #[trigger] alike(x) <==> x.weight() == w,
    ensures
        s.filter(alike) == of_weight(s, w),
    decreases s.len(),
{
    reveal(Seq::filter);
    if s.len() > 0 {
        lemma_filter_alike(s.drop_last(), w, alike);
        assert(alike(s.last()) <==> s.last().weight() == w);
    }
}

/// Putting the heaviest first: no element is heavier than one before it, and of two elements
/// of one weight the one that stood first stands first.
pub proof fn law_heaviest_first<T: Weighed>(
    before: Seq<T>,
    after: Seq<T>,
    w: u64,
    alike: spec_fn(T) -> bool,
)
    requires
        ordered_from(before, after),
        forall|x: T| #[trigger] alike(x) <==> x.weight() == w,
    ensures
        forall|i: int, j: int|
            0 <= i <= j < after.len() ==> (#[trigger] after[i]).weight() >= (
            #[trigger] after[j]).weight(),
        after.filter(alike) == before.filter(alike),
        after.len() == before.len(),
{
    broadcast use vstd::seq_lib::group_to_multiset_ensures;

    assert(of_weight(after, w) == of_weight(before, w));
    lemma_filter_alike(after, w, alike);
    lemma_filter_alike(before, w, alike);
    law_order_keeps_all(before, after);
    assert(after.len() == after.to_multiset().len());
    assert(before.len() == before.to_multiset().len());
}

} // verus!
