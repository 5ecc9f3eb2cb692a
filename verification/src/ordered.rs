//! Lists that are kept in ascending order.

use core::cmp::Ordering;
use vstd::laws_cmp::{obeys_cmp, obeys_cmp_ord, obeys_cmp_partial_ord, obeys_partial_cmp_spec_properties};
use vstd::laws_eq::obeys_concrete_eq;
use vstd::prelude::*;
use vstd::std_specs::cmp::{OrdSpec, PartialOrdSpec};

verus! {

/// The comparison operators of `T` describe a total order in which only identical values are equal.
pub open spec fn totally_ordered<T: Ord>() -> bool {
    &&& obeys_cmp::<T>()
    &&& obeys_concrete_eq::<T>()
}

/// `x` comes strictly before `y`.
pub open spec fn precedes<T: Ord>(x: T, y: T) -> bool {
    x.partial_cmp_spec(&y) == Some(Ordering::Less)
}

/// No item of `s` comes before an item that stands to its left.
pub open spec fn ordered<T: Ord>(s: Seq<T>) -> bool {
    forall|i: int, j: int| 0 <= i < j < s.len() ==> !precedes(#[trigger] s[j], #[trigger] s[i])
}

/// `precedes` is a strict total order.
pub proof fn lemma_total_order<T: Ord>()
    requires
        totally_ordered::<T>(),
    ensures
        forall|x: T, y: T| #[trigger] precedes(x, y) ==> !precedes(y, x) && x != y,
        forall|x: T, y: T| !#[trigger] precedes(x, y) && !precedes(y, x) ==> x == y,
        forall|x: T, y: T, z: T| #[trigger]
            precedes(x, y) && #[trigger] precedes(y, z) ==> precedes(x, z),
{
    reveal(obeys_cmp_ord);
    reveal(obeys_cmp_partial_ord);
    reveal(obeys_partial_cmp_spec_properties);
    reveal(obeys_concrete_eq);
    assert forall|x: T, y: T| !#[trigger] precedes(x, y) && !precedes(y, x) implies x == y by {
        assert(x.partial_cmp_spec(&y) == Some(x.cmp_spec(&y)));
        assert(y.partial_cmp_spec(&x) == Some(y.cmp_spec(&x)));
    }
}

/// Whether `x` comes strictly before `y`.
fn is_before<T: Ord>(x: &T, y: &T) -> (before: bool)
    requires
        totally_ordered::<T>(),
    ensures
        before == precedes(*x, *y),
{
    proof {
        reveal(obeys_cmp_partial_ord);
    }
    *x < *y
}

/// Exchanging two items does not change which items a list holds.
proof fn lemma_exchange_keeps_multiset<T>(s: Seq<T>, i: int, j: int)
    requires
        0 <= i < j < s.len(),
    ensures
        s.update(i, s[j]).update(j, s[i]).to_multiset() == s.to_multiset(),
{
    lemma_update_multiset(s, i, s[j]);
    lemma_update_multiset(s.update(i, s[j]), j, s[i]);
    vstd::seq_lib::to_multiset_contains(s, s[i]);
    vstd::seq_lib::to_multiset_contains(s, s[j]);
    assert(s.update(i, s[j]).update(j, s[i]).to_multiset() =~= s.to_multiset());
}

/// Writing over one item takes that item out of the list and puts the new one in.
proof fn lemma_update_multiset<T>(s: Seq<T>, i: int, x: T)
    requires
        0 <= i < s.len(),
    ensures
        s.update(i, x).to_multiset() == s.to_multiset().remove(s[i]).insert(x),
{
    let rest = s.remove(i);
    vstd::seq_lib::to_multiset_remove(s, i);
    vstd::seq_lib::to_multiset_insert(rest, i, x);
    assert(rest.insert(i, x) =~= s.update(i, x));
}

/// Looks `x` up in an ordered list: its position, or else the position at which it would have to
/// be inserted for the list to stay ordered.
pub fn binary_search<T: Ord>(items: &[T], x: &T) -> (result: Result<usize, usize>)
    requires
        totally_ordered::<T>(),
        ordered(items@),
    ensures
        match result {
            Ok(position) => position < items@.len() && items@[position as int] == *x,
            Err(position) => {
                &&& position <= items@.len()
                &&& forall|i: int| 0 <= i < position ==> precedes(#[trigger] items@[i], *x)
                &&& forall|i: int|
                    position <= i < items@.len() ==> precedes(*x, #[trigger] items@[i])
            },
        },
{
    let mut low: usize = 0;
    let mut high: usize = items.len();
    proof {
        lemma_total_order::<T>();
    }
    while low < high
        invariant
            totally_ordered::<T>(),
            ordered(items@),
            low <= high <= items@.len(),
            forall|i: int| 0 <= i < low ==> precedes(#[trigger] items@[i], *x),
            forall|i: int| high <= i < items@.len() ==> precedes(*x, #[trigger] items@[i]),
        decreases high - low,
    {
        let middle: usize = low + (high - low) / 2;
        let found = &items[middle];
        proof {
            lemma_total_order::<T>();
        }
        if is_before(found, x) {
            assert forall|i: int| 0 <= i <= middle implies precedes(#[trigger] items@[i], *x) by {
                if precedes(items@[middle as int], items@[i]) {
                    assert(i < middle);
                }
            }
            low = middle + 1;
        } else if is_before(x, found) {
            assert forall|i: int| middle <= i < items@.len() implies precedes(
                *x,
                #[trigger] items@[i],
            ) by {
                if precedes(items@[i], items@[middle as int]) {
                    assert(middle < i);
                }
            }
            high = middle;
        } else {
            assert(!precedes(*found, *x) && !precedes(*x, *found));
            return Ok(middle);
        }
    }
    Err(low)
}

/// Sorts a list in place.
pub fn sort<T: Ord + Copy>(items: &mut [T])
    requires
        totally_ordered::<T>(),
    ensures
        ordered(final(items)@),
        final(items)@.to_multiset() == old(items)@.to_multiset(),
{
    let len: usize = items.len();
    let mut sorted: usize = 0;
    while sorted < len
        invariant
            totally_ordered::<T>(),
            sorted <= len == items@.len(),
            ordered(items@.take(sorted as int)),
            items@.to_multiset() == old(items)@.to_multiset(),
        decreases len - sorted,
    {
        let mut hole: usize = sorted;
        let ghost prefix = items@.take(sorted as int);
        let ghost moving = items@[sorted as int];
        assert(forall|i: int| 0 <= i < sorted ==> items@[i] == #[trigger] prefix[i]);
        while hole > 0 && is_before(&items[hole], &items[hole - 1])
            invariant
                totally_ordered::<T>(),
                hole <= sorted < len == items@.len(),
                prefix.len() == sorted,
                ordered(prefix),
                items@[hole as int] == moving,
                forall|i: int| 0 <= i < hole ==> items@[i] == #[trigger] prefix[i],
                forall|i: int| hole < i <= sorted ==> #[trigger] items@[i] == prefix[i - 1],
                forall|i: int| hole < i <= sorted ==> precedes(moving, #[trigger] items@[i]),
                items@.to_multiset() == old(items)@.to_multiset(),
            ensures
                hole == 0 || !precedes(moving, prefix[hole - 1]),
            decreases hole,
        {
            let ghost before = items@;
            let held: T = items[hole];
            items[hole] = items[hole - 1];
            items[hole - 1] = held;
            proof {
                lemma_exchange_keeps_multiset(before, hole - 1, hole as int);
                assert(items@ =~= before.update(hole - 1, before[hole as int]).update(
                    hole as int,
                    before[hole - 1],
                ));
                assert(before[hole - 1] == prefix[hole - 1]);
            }
            hole = hole - 1;
        }
        proof {
            lemma_total_order::<T>();
            let next = items@.take(sorted + 1);
            assert forall|i: int, j: int| 0 <= i < j < next.len() implies !precedes(
                #[trigger] next[j],
                #[trigger] next[i],
            ) by {
                let left = if i < hole { prefix[i] } else if i == hole { moving } else { prefix[i - 1] };
                let right = if j < hole { prefix[j] } else if j == hole { moving } else { prefix[j - 1] };
                assert(next[i] == left);
                assert(next[j] == right);
                if j == hole {
                    if i < hole - 1 {
                        assert(!precedes(prefix[hole - 1], prefix[i]));
                    }
                }
            }
        }
        sorted = sorted + 1;
    }
    assert(items@.take(len as int) =~= items@);
}

/// What `after` holds once the existence of `one` and of `other` in `before` has been swapped: a
/// lone one of the two gives way to the other, and otherwise nothing changes.
pub open spec fn existence_swapped<T: Ord>(
    before: Seq<T>,
    after: Seq<T>,
    one: T,
    other: T,
) -> bool {
    if before.contains(one) && !before.contains(other) {
        &&& ordered(after)
        &&& after.to_multiset() == before.to_multiset().remove(one).insert(other)
    } else if before.contains(other) && !before.contains(one) {
        &&& ordered(after)
        &&& after.to_multiset() == before.to_multiset().remove(other).insert(one)
    } else {
        after == before
    }
}

/// Swap the existence of two items, provided by value, within an ordered list.
///
/// If neither item exists, or if both items exist this will do nothing. If exactly one of the
/// items exists, then it will be removed and the other inserted.
pub fn swap_ordered_existence<T: PartialOrd + Ord + Copy>(ids: &mut [T], one: T, other: T)
    requires
        totally_ordered::<T>(),
        ordered(old(ids)@),
    ensures
        ordered(final(ids)@),
        existence_swapped(old(ids)@, final(ids)@, one, other),
{
    let ghost before = ids@;
    proof {
        lemma_total_order::<T>();
    }
    let maybe_one_pos = binary_search(ids, &one);
    let maybe_other_pos = binary_search(ids, &other);
    match (maybe_one_pos, maybe_other_pos) {
        (Ok(one_pos), Err(_)) => {
            ids[one_pos] = other;
            proof {
                lemma_update_multiset(before, one_pos as int, other);
            }
        },
        (Err(_), Ok(other_pos)) => {
            ids[other_pos] = one;
            proof {
                lemma_update_multiset(before, other_pos as int, one);
            }
        },
        _ => {
            return ;
        },
    }
    sort(ids);
}

/// There is only one ordered list with given items.
pub proof fn lemma_ordered_unique<T: Ord>(s: Seq<T>, t: Seq<T>)
    requires
        totally_ordered::<T>(),
        ordered(s),
        ordered(t),
        s.to_multiset() == t.to_multiset(),
    ensures
        s == t,
{
    lemma_total_order::<T>();
    let leq = |x: T, y: T| !precedes(y, x);
    assert forall|i: int, j: int| 0 <= i < j < s.len() implies #[trigger] leq(s[i], s[j]) by {
        assert(!precedes(s[j], s[i]));
    }
    assert forall|i: int, j: int| 0 <= i < j < t.len() implies #[trigger] leq(t[i], t[j]) by {
        assert(!precedes(t[j], t[i]));
    }
    assert forall|x: T, y: T, z: T| #[trigger] leq(x, y) && #[trigger] leq(y, z) implies leq(x, z) by {
        if precedes(z, x) {
            assert(precedes(x, y) || x == y);
        }
    }
    vstd::seq_lib::lemma_sorted_unique(s, t, leq);
}

/// Swapping the existence of two items has one outcome, whichever of the two is named first.
pub proof fn lemma_existence_swap_is_symmetric<T: Ord>(
    before: Seq<T>,
    after: Seq<T>,
    after_mirrored: Seq<T>,
    one: T,
    other: T,
)
    requires
        totally_ordered::<T>(),
        ordered(before),
        existence_swapped(before, after, one, other),
        existence_swapped(before, after_mirrored, other, one),
    ensures
        after == after_mirrored,
{
    if before.contains(one) != before.contains(other) {
        lemma_ordered_unique(after, after_mirrored);
    }
}

/// Swapping the existence of two items twice gives back the list, where it holds no item twice.
pub proof fn lemma_existence_swap_is_involution<T: Ord>(
    before: Seq<T>,
    between: Seq<T>,
    after: Seq<T>,
    one: T,
    other: T,
)
    requires
        totally_ordered::<T>(),
        ordered(before),
        before.no_duplicates(),
        existence_swapped(before, between, one, other),
        existence_swapped(between, after, one, other),
    ensures
        after == before,
{
    before.lemma_multiset_has_no_duplicates();
    broadcast use vstd::seq_lib::group_to_multiset_ensures;

    if before.contains(one) && !before.contains(other) {
        assert(between.to_multiset().count(one) == 0);
        assert(between.to_multiset().count(other) == 1);
        assert(after.to_multiset() =~= before.to_multiset());
        lemma_ordered_unique(after, before);
    } else if before.contains(other) && !before.contains(one) {
        assert(between.to_multiset().count(other) == 0);
        assert(between.to_multiset().count(one) == 1);
        assert(after.to_multiset() =~= before.to_multiset());
        lemma_ordered_unique(after, before);
    }
}

/// A list without duplicates still holds no item twice once the existence of two items is swapped.
pub proof fn lemma_existence_swap_keeps_distinct<T: Ord>(
    before: Seq<T>,
    after: Seq<T>,
    one: T,
    other: T,
)
    requires
        before.no_duplicates(),
        existence_swapped(before, after, one, other),
    ensures
        after.no_duplicates(),
        forall|x: T| #[trigger]
            after.contains(x) <==> if x == one {
                before.contains(other)
            } else if x == other {
                before.contains(one)
            } else {
                before.contains(x)
            },
{
    before.lemma_multiset_has_no_duplicates();
    broadcast use vstd::seq_lib::group_to_multiset_ensures;

    if before.contains(one) != before.contains(other) {
        assert forall|x: T| #[trigger] after.to_multiset().contains(x) implies after.to_multiset().count(
            x,
        ) == 1 by {
            if x != one && x != other {
                assert(before.to_multiset().contains(x));
            }
        }
        after.lemma_multiset_has_no_duplicates_conv();
        assert forall|x: T| #[trigger] after.contains(x) <==> if x == one {
            before.contains(other)
        } else if x == other {
            before.contains(one)
        } else {
            before.contains(x)
        } by {
            assert(after.contains(x) <==> after.to_multiset().count(x) > 0);
            assert(before.contains(x) <==> before.to_multiset().count(x) > 0);
        }
    }
}

} // verus!
