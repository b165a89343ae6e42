//! Ascending order that keeps equal keys in the order they came in.

use vstd::prelude::*;
use crate::sums::{arrangement_covers, is_arrangement};

verus! {

/// Place `a` stands before place `b` in ascending order of `keys`: its key
/// is smaller, or the keys are equal and `a` came first.
pub open spec fn comes_before(keys: Seq<int>, a: int, b: int) -> bool {
    keys[a] < keys[b] || (keys[a] == keys[b] && a < b)
}

/// `order` lists the places of `keys` so that the keys ascend and equal keys
/// keep the order they have in `keys`.
pub open spec fn is_stable_order(keys: Seq<int>, order: Seq<int>) -> bool {
    &&& order.len() == keys.len()
    &&& forall|i: int| 0 <= i < order.len() ==> 0 <= #[trigger] order[i] < keys.len()
    &&& forall|i: int, j: int|
        0 <= i < j < order.len() ==> comes_before(keys, #[trigger] order[i], #[trigger] order[j])
}

/// The stable ascending order of `keys`: the one sequence of places that
/// `is_stable_order` admits.
pub open spec fn stable_order(keys: Seq<int>) -> Seq<int> {
    choose|order: Seq<int>| is_stable_order(keys, order)
}

/// The keys as integers.
pub open spec fn key_ints(keys: Seq<u128>) -> Seq<int> {
    Seq::new(keys.len(), |i: int| keys[i] as int)
}

/// The places as integers.
pub open spec fn place_ints(order: Seq<usize>) -> Seq<int> {
    Seq::new(order.len(), |i: int| order[i] as int)
}

/// A stable order names each place of `keys` once.
pub proof fn stable_order_is_arrangement(keys: Seq<int>, order: Seq<int>)
    requires
        is_stable_order(keys, order),
    ensures
        is_arrangement(order, keys.len()),
{
    assert forall|i: int, j: int| 0 <= i < order.len() && 0 <= j < order.len() && i != j implies order[i]
        != order[j] by {
        if i < j {
            assert(comes_before(keys, order[i], order[j]));
        } else {
            assert(comes_before(keys, order[j], order[i]));
        }
    }
}

/// A stable order names every place of `keys`.
pub proof fn stable_order_covers(keys: Seq<int>, order: Seq<int>, place: int)
    requires
        is_stable_order(keys, order),
        0 <= place < keys.len(),
    ensures
        order.contains(place),
{
    stable_order_is_arrangement(keys, order);
    arrangement_covers(order, keys.len(), place);
}

proof fn lemma_orders_agree(keys: Seq<int>, a: Seq<int>, b: Seq<int>, upto: int)
    requires
        is_stable_order(keys, a),
        is_stable_order(keys, b),
        0 <= upto <= keys.len(),
    ensures
        forall|i: int| 0 <= i < upto ==> a[i] == b[i],
    decreases upto,
{
    if upto > 0 {
        lemma_orders_agree(keys, a, b, upto - 1);
        let i = upto - 1;
        if a[i] != b[i] {
            assert(0 <= a[i] < keys.len() && 0 <= b[i] < keys.len());
            if comes_before(keys, a[i], b[i]) {
                stable_order_covers(keys, b, a[i]);
                let j = choose|j: int| 0 <= j < b.len() && b[j] == a[i];
                if j < i {
                    assert(a[j] == b[j]);
                    assert(comes_before(keys, a[j], a[i]));
                } else if j > i {
                    assert(comes_before(keys, b[i], b[j]));
                }
            } else {
                assert(comes_before(keys, b[i], a[i]));
                stable_order_covers(keys, a, b[i]);
                let j = choose|j: int| 0 <= j < a.len() && a[j] == b[i];
                if j < i {
                    assert(a[j] == b[j]);
                    assert(comes_before(keys, b[j], b[i]));
                } else if j > i {
                    assert(comes_before(keys, a[i], a[j]));
                }
            }
        }
    }
}

/// There is one stable order and no other: the order of the result is
/// fixed by the keys, ties included.
pub proof fn stable_order_is_unique(keys: Seq<int>, a: Seq<int>, b: Seq<int>)
    requires
        is_stable_order(keys, a),
        is_stable_order(keys, b),
    ensures
        a == b,
{
    lemma_orders_agree(keys, a, b, keys.len() as int);
    assert(a =~= b);
}

proof fn lemma_insertion_point(keys: Seq<int>, order: Seq<int>, key: int, upto: int) -> (p: int)
    requires
        forall|i: int| 0 <= i < order.len() ==> 0 <= #[trigger] order[i] < keys.len(),
        forall|i: int, j: int|
            0 <= i < j < order.len() ==> keys[#[trigger] order[i]] <= keys[#[trigger] order[j]],
        0 <= upto <= order.len(),
        forall|i: int| upto <= i < order.len() ==> keys[#[trigger] order[i]] > key,
    ensures
        0 <= p <= order.len(),
        forall|i: int| 0 <= i < p ==> keys[#[trigger] order[i]] <= key,
        forall|i: int| p <= i < order.len() ==> keys[#[trigger] order[i]] > key,
    decreases upto,
{
    if upto == 0 {
        0
    } else if keys[order[upto - 1]] > key {
        lemma_insertion_point(keys, order, key, upto - 1)
    } else {
        assert forall|i: int| 0 <= i < upto implies keys[#[trigger] order[i]] <= key by {
            if i < upto - 1 {
                assert(keys[order[i]] <= keys[order[upto - 1]]);
            }
        }
        upto
    }
}

/// Every sequence of keys has a stable order.
pub proof fn stable_order_exists(keys: Seq<int>)
    ensures
        is_stable_order(keys, stable_order(keys)),
    decreases keys.len(),
{
    if keys.len() == 0 {
        assert(is_stable_order(keys, Seq::<int>::empty()));
    } else {
        let rest = keys.drop_last();
        let n = rest.len() as int;
        stable_order_exists(rest);
        let o = stable_order(rest);
        assert forall|i: int, j: int| 0 <= i < j < o.len() implies keys[#[trigger] o[i]] <= keys[
        #[trigger] o[j]] by {
            assert(comes_before(rest, o[i], o[j]));
        }
        let p = lemma_insertion_point(keys, o, keys[n], o.len() as int);
        let o2 = o.insert(p, n);
        assert(is_stable_order(keys, o2)) by {
            assert forall|i: int| 0 <= i < o2.len() implies 0 <= #[trigger] o2[i] < keys.len() by {
                if i < p {
                    assert(o2[i] == o[i]);
                } else if i > p {
                    assert(o2[i] == o[i - 1]);
                }
            }
            assert forall|i: int, j: int| 0 <= i < j < o2.len() implies comes_before(
                keys,
                #[trigger] o2[i],
                #[trigger] o2[j],
            ) by {
                if j < p {
                    assert(comes_before(rest, o[i], o[j]));
                } else if j == p {
                    assert(o2[i] == o[i]);
                    assert(keys[o[i]] <= keys[n]);
                } else if i < p {
                    assert(o2[j] == o[j - 1]);
                    assert(comes_before(rest, o[i], o[j - 1]));
                } else if i == p {
                    assert(o2[j] == o[j - 1]);
                    assert(keys[o[j - 1]] > keys[n]);
                } else {
                    assert(o2[i] == o[i - 1] && o2[j] == o[j - 1]);
                    assert(comes_before(rest, o[i - 1], o[j - 1]));
                }
            }
        }
    }
}

/// What `is_stable_order` says, read off the stable order of `keys`, given
/// that some sequence is a stable order of them.
pub proof fn stable_order_holds(keys: Seq<int>, witness: Seq<int>)
    requires
        is_stable_order(keys, witness),
    ensures
        stable_order(keys) == witness,
        is_stable_order(keys, stable_order(keys)),
{
    stable_order_is_unique(keys, stable_order(keys), witness);
}

/// In a stable order the keys ascend.
pub proof fn stable_order_ascends(keys: Seq<int>, order: Seq<int>, i: int, j: int)
    requires
        is_stable_order(keys, order),
        0 <= i <= j < order.len(),
    ensures
        keys[order[i]] <= keys[order[j]],
{
    if i < j {
        assert(comes_before(keys, order[i], order[j]));
    }
}

/// `order` lists the places from `lo` up to `hi`, `hi` left out, so that
/// the keys ascend and equal keys keep the order they have in `keys`.
spec fn is_stable_run(keys: Seq<int>, order: Seq<int>, lo: int, hi: int) -> bool {
    &&& order.len() == hi - lo
    &&& forall|i: int| 0 <= i < order.len() ==> lo <= #[trigger] order[i] < hi
    &&& forall|i: int, j: int|
        0 <= i < j < order.len() ==> comes_before(keys, #[trigger] order[i], #[trigger] order[j])
}

/// Merges the stable orders of two neighbouring stretches of places into
/// the stable order of both.
fn merge_runs(
    keys: &Vec<u128>,
    left: &Vec<usize>,
    right: &Vec<usize>,
    Ghost(lo): Ghost<int>,
    Ghost(mid): Ghost<int>,
    Ghost(hi): Ghost<int>,
) -> (order: Vec<usize>)
    requires
        0 <= lo <= mid <= hi <= keys.len(),
        is_stable_run(key_ints(keys@), place_ints(left@), lo, mid),
        is_stable_run(key_ints(keys@), place_ints(right@), mid, hi),
    ensures
        is_stable_run(key_ints(keys@), place_ints(order@), lo, hi),
{
    let ghost ks = key_ints(keys@);
    let ghost ls = place_ints(left@);
    let ghost rs = place_ints(right@);
    let mut order: Vec<usize> = Vec::new();
    let mut i: usize = 0;
    let mut j: usize = 0;
    while i < left.len() || j < right.len()
        invariant
            ks == key_ints(keys@),
            ls == place_ints(left@),
            rs == place_ints(right@),
            0 <= lo <= mid <= hi <= keys.len(),
            is_stable_run(ks, ls, lo, mid),
            is_stable_run(ks, rs, mid, hi),
            i <= left.len(),
            j <= right.len(),
            order.len() == i + j,
            forall|a: int| 0 <= a < order.len() ==> lo <= #[trigger] order[a] < hi,
            forall|a: int, b: int|
                0 <= a < b < order.len() ==> comes_before(
                    ks,
                    #[trigger] order[a] as int,
                    #[trigger] order[b] as int,
                ),
            forall|a: int, b: int|
                0 <= a < order.len() && i <= b < ls.len() ==> comes_before(
                    ks,
                    #[trigger] order[a] as int,
                    #[trigger] ls[b],
                ),
            forall|a: int, b: int|
                0 <= a < order.len() && j <= b < rs.len() ==> comes_before(
                    ks,
                    #[trigger] order[a] as int,
                    #[trigger] rs[b],
                ),
        decreases left.len() - i + right.len() - j,
    {
        let take_left = if j == right.len() {
            true
        } else if i == left.len() {
            false
        } else {
            assert(ls[i as int] == left[i as int] && rs[j as int] == right[j as int]);
            keys[left[i]] <= keys[right[j]]
        };
        if take_left {
            let x = left[i];
            proof {
                assert(ls[i as int] == x);
                assert forall|b: int| i < b < ls.len() implies comes_before(
                    ks,
                    x as int,
                    #[trigger] ls[b],
                ) by {
                    assert(comes_before(ks, ls[i as int], ls[b]));
                }
                assert forall|b: int| j <= b < rs.len() implies comes_before(
                    ks,
                    x as int,
                    #[trigger] rs[b],
                ) by {
                    assert(mid <= rs[b] < hi);
                    if b > j {
                        assert(comes_before(ks, rs[j as int], rs[b]));
                    }
                    assert(mid <= rs[j as int] < hi);
                }
            }
            order.push(x);
            i = i + 1;
        } else {
            let y = right[j];
            proof {
                assert(rs[j as int] == y);
                assert forall|b: int| j < b < rs.len() implies comes_before(
                    ks,
                    y as int,
                    #[trigger] rs[b],
                ) by {
                    assert(comes_before(ks, rs[j as int], rs[b]));
                }
                assert forall|b: int| i <= b < ls.len() implies comes_before(
                    ks,
                    y as int,
                    #[trigger] ls[b],
                ) by {
                    assert(lo <= ls[b] < mid);
                    if b > i {
                        assert(comes_before(ks, ls[i as int], ls[b]));
                    }
                    assert(lo <= ls[i as int] < mid);
                }
            }
            order.push(y);
            j = j + 1;
        }
    }
    proof {
        let places = place_ints(order@);
        assert forall|a: int, b: int| 0 <= a < b < places.len() implies comes_before(
            ks,
            #[trigger] places[a],
            #[trigger] places[b],
        ) by {
            assert(comes_before(ks, order[a] as int, order[b] as int));
        }
        assert forall|a: int| 0 <= a < places.len() implies lo <= #[trigger] places[a] < hi by {
            assert(lo <= order[a] < hi);
        }
    }
    order
}

/// The stable order of the places from `lo` up to `hi`, by merging the
/// stable orders of its two halves.
fn sort_run(keys: &Vec<u128>, lo: usize, hi: usize) -> (order: Vec<usize>)
    requires
        lo <= hi <= keys.len(),
    ensures
        is_stable_run(key_ints(keys@), place_ints(order@), lo as int, hi as int),
    decreases hi - lo,
{
    let mut order: Vec<usize> = Vec::new();
    if hi - lo == 0 {
        order
    } else if hi - lo == 1 {
        order.push(lo);
        assert(place_ints(order@)[0] == lo);
        order
    } else {
        let mid = lo + (hi - lo) / 2;
        let left = sort_run(keys, lo, mid);
        let right = sort_run(keys, mid, hi);
        merge_runs(keys, &left, &right, Ghost(lo as int), Ghost(mid as int), Ghost(hi as int))
    }
}

/// The places of `keys` in ascending order of their keys; places with equal
/// keys keep the order they have in `keys`.
pub fn sort_places(keys: &Vec<u128>) -> (order: Vec<usize>)
    ensures
        is_stable_order(key_ints(keys@), place_ints(order@)),
        place_ints(order@) == stable_order(key_ints(keys@)),
{
    let order = sort_run(keys, 0, keys.len());
    proof {
        stable_order_holds(key_ints(keys@), place_ints(order@));
    }
    order
}

} // verus!
