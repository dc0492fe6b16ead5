//! The mathematical model of the tabu set: the resident elements as a
//! sequence, oldest first, and what one insertion does to it.

use vstd::prelude::*;

verus! {

/// Whether `order` can be the resident elements of a set with room for
/// `capacity`: no element occurs twice and there are at most `capacity`.
pub open spec fn admissible<T>(order: Seq<T>, capacity: nat) -> bool {
    order.no_duplicates() && order.len() <= capacity
}

/// The resident elements after `element` is inserted into `order`.
///
/// An element that is already resident changes nothing. A new one goes to
/// the back, and if that makes more than `capacity`, the front one leaves.
pub open spec fn inserted<T>(order: Seq<T>, capacity: nat, element: T) -> Seq<T> {
    if order.contains(element) {
        order
    } else if order.len() < capacity {
        order.push(element)
    } else {
        order.push(element).drop_first()
    }
}

/// The element that leaves when `element` is inserted into `order`, if one
/// does.
pub open spec fn evicted<T>(order: Seq<T>, capacity: nat, element: T) -> Option<T> {
    if order.contains(element) || order.len() < capacity {
        None
    } else {
        Some(order.push(element).first())
    }
}

/// An insertion keeps the resident elements distinct and within capacity.
pub proof fn lemma_inserted_admissible<T>(order: Seq<T>, capacity: nat, element: T)
    requires
        admissible(order, capacity),
    ensures
        admissible(inserted(order, capacity, element), capacity),
{
    if !order.contains(element) {
        let grown = order.push(element);
        assert(grown.no_duplicates());
        if order.len() >= capacity {
            assert(grown.drop_first().no_duplicates());
        }
    }
}

/// The number of resident elements after an insertion: unchanged for an
/// element already resident, otherwise one more, but never above capacity.
pub proof fn lemma_inserted_len<T>(order: Seq<T>, capacity: nat, element: T)
    requires
        admissible(order, capacity),
    ensures
        order.contains(element) ==> inserted(order, capacity, element).len() == order.len(),
        !order.contains(element) && order.len() < capacity ==> inserted(
            order,
            capacity,
            element,
        ).len() == order.len() + 1,
        !order.contains(element) && order.len() == capacity ==> inserted(
            order,
            capacity,
            element,
        ).len() == capacity,
{
}

/// Who is resident after an insertion: the inserted element, unless there is
/// no room at all, and everyone who was resident before except the evicted
/// one.
pub proof fn lemma_inserted_contains<T>(order: Seq<T>, capacity: nat, element: T, other: T)
    requires
        admissible(order, capacity),
    ensures
        inserted(order, capacity, element).contains(other) <==> {
            ||| other == element && capacity > 0
            ||| order.contains(other) && evicted(order, capacity, element) != Some(other)
        },
{
    let after = inserted(order, capacity, element);
    let grown = order.push(element);
    if !order.contains(element) {
        assert(grown.no_duplicates());
        assert(grown[order.len() as int] == element);
        if order.contains(other) {
            let i = choose|i: int| 0 <= i < order.len() && order[i] == other;
            assert(grown[i] == other);
        }
        if order.len() >= capacity {
            if after.contains(other) {
                let i = choose|i: int| 0 <= i < after.len() && after[i] == other;
                assert(grown[i + 1] == other);
            }
            if other == element && capacity > 0 {
                assert(after[order.len() - 1] == element);
            }
            if order.contains(other) && grown[0] != other {
                let i = choose|i: int| 0 <= i < order.len() && order[i] == other;
                assert(after[i - 1] == other);
            }
        }
    }
}

} // verus!
