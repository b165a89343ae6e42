//! Sums of sequences of integers, and what rearranging does to them.

use vstd::prelude::*;
use vstd::seq_lib::seq_to_set_is_finite;
use vstd::set_lib::{lemma_int_range, lemma_subset_equality, set_int_range};

verus! {

/// The sum of the members of `values`.
pub open spec fn int_sum(values: Seq<int>) -> int
    decreases values.len(),
{
    if values.len() == 0 {
        0
    } else {
        int_sum(values.drop_last()) + values.last()
    }
}

/// `order` names each of the places `0 .. n` once.
pub open spec fn is_arrangement(order: Seq<int>, n: nat) -> bool {
    &&& order.len() == n
    &&& forall|i: int| 0 <= i < order.len() ==> 0 <= #[trigger] order[i] < n
    &&& order.no_duplicates()
}

/// The members of `values` in the order that `order` names their places in.
pub open spec fn arranged(values: Seq<int>, order: Seq<int>) -> Seq<int> {
    Seq::new(order.len(), |i: int| values[order[i]])
}

/// The sum of two sequences joined is the sum of their sums.
pub proof fn sum_of_joined(a: Seq<int>, b: Seq<int>)
    ensures
        int_sum(a + b) == int_sum(a) + int_sum(b),
    decreases b.len(),
{
    if b.len() == 0 {
        assert(a + b =~= a);
    } else {
        sum_of_joined(a, b.drop_last());
        assert((a + b).drop_last() =~= a + b.drop_last());
    }
}

/// A sum of members that are not negative is not negative.
pub proof fn sum_is_not_negative(values: Seq<int>)
    requires
        forall|i: int| 0 <= i < values.len() ==> 0 <= #[trigger] values[i],
    ensures
        0 <= int_sum(values),
    decreases values.len(),
{
    if values.len() > 0 {
        let rest = values.drop_last();
        assert forall|i: int| 0 <= i < rest.len() implies 0 <= #[trigger] rest[i] by {
            assert(rest[i] == values[i]);
        }
        sum_is_not_negative(rest);
    }
}

/// Taking one member out lowers the sum by that member.
pub proof fn sum_without(values: Seq<int>, at: int)
    requires
        0 <= at < values.len(),
    ensures
        int_sum(values.remove(at)) == int_sum(values) - values[at],
    decreases values.len(),
{
    if at == values.len() - 1 {
        assert(values.remove(at) =~= values.drop_last());
    } else {
        sum_without(values.drop_last(), at);
        assert(values.remove(at).drop_last() =~= values.drop_last().remove(at));
        assert(values.remove(at).last() == values.last());
    }
}

/// An arrangement of `n` places names every one of them.
pub proof fn arrangement_covers(order: Seq<int>, n: nat, place: int)
    requires
        is_arrangement(order, n),
        0 <= place < n,
    ensures
        order.contains(place),
{
    order.unique_seq_to_set();
    seq_to_set_is_finite(order);
    lemma_int_range(0, n as int);
    assert(order.to_set().subset_of(set_int_range(0, n as int))) by {
        assert forall|v: int| order.to_set().contains(v) implies set_int_range(
            0,
            n as int,
        ).contains(v) by {
            let i = choose|i: int| 0 <= i < order.len() && order[i] == v;
            assert(0 <= order[i] < n);
        }
    }
    lemma_subset_equality(order.to_set(), set_int_range(0, n as int));
    assert(set_int_range(0, n as int).contains(place));
    assert(order.to_set().contains(place));
}

/// Rearranging does not change a sum.
pub proof fn sum_of_arranged(values: Seq<int>, order: Seq<int>)
    requires
        is_arrangement(order, values.len()),
    ensures
        int_sum(arranged(values, order)) == int_sum(values),
    decreases values.len(),
{
    let n = values.len() as int;
    if n == 0 {
        assert(arranged(values, order) =~= Seq::<int>::empty());
    } else {
        arrangement_covers(order, values.len(), n - 1);
        let p = choose|p: int| 0 <= p < order.len() && order[p] == n - 1;
        let rest_order = order.remove(p);
        let rest = values.drop_last();
        assert(is_arrangement(rest_order, rest.len())) by {
            assert forall|i: int| 0 <= i < rest_order.len() implies 0 <= #[trigger] rest_order[i]
                < rest.len() by {
                if i < p {
                    assert(rest_order[i] == order[i]);
                    assert(order[i] != order[p]);
                } else {
                    assert(rest_order[i] == order[i + 1]);
                    assert(order[i + 1] != order[p]);
                }
            }
            assert forall|i: int, j: int|
                0 <= i < rest_order.len() && 0 <= j < rest_order.len() && i != j implies rest_order[i]
                != rest_order[j] by {
                let a = if i < p {
                    i
                } else {
                    i + 1
                };
                let b = if j < p {
                    j
                } else {
                    j + 1
                };
                assert(rest_order[i] == order[a] && rest_order[j] == order[b]);
                assert(order[a] != order[b]);
            }
        }
        sum_of_arranged(rest, rest_order);
        let whole = arranged(values, order);
        sum_without(whole, p);
        assert(whole.remove(p) =~= arranged(rest, rest_order)) by {
            assert forall|i: int| 0 <= i < rest_order.len() implies whole.remove(p)[i] == arranged(
                rest,
                rest_order,
            )[i] by {
                if i < p {
                    assert(rest_order[i] == order[i]);
                    assert(order[i] != order[p]);
                } else {
                    assert(rest_order[i] == order[i + 1]);
                    assert(order[i + 1] != order[p]);
                }
            }
        }
        assert(whole[p] == values[n - 1]);
    }
}

} // verus!
