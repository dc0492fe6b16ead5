//! What holds after a whole sequence of insertions: the resident elements
//! are always the newest admitted ones that fit.

use crate::fifo::{admissible, evicted, inserted, lemma_inserted_admissible};
use vstd::prelude::*;

verus! {

/// The resident elements after the elements of `history` are inserted into
/// `order`, one after another.
pub open spec fn inserted_all<T>(order: Seq<T>, capacity: nat, history: Seq<T>) -> Seq<T>
    decreases history.len(),
{
    if history.len() == 0 {
        order
    } else {
        inserted(inserted_all(order, capacity, history.drop_last()), capacity, history.last())
    }
}

/// The last `count` elements of `s`, or all of `s` if it has fewer.
pub open spec fn newest<T>(s: Seq<T>, count: nat) -> Seq<T> {
    if s.len() <= count {
        s
    } else {
        s.subrange(s.len() - count, s.len() as int)
    }
}

/// The admissions so far: `order`, followed by those elements of `history`
/// that were not resident when their turn came. An element is resident at
/// its turn if it is among the newest `capacity` admissions before it.
pub open spec fn admitted<T>(order: Seq<T>, capacity: nat, history: Seq<T>) -> Seq<T>
    decreases history.len(),
{
    if history.len() == 0 {
        order
    } else {
        let earlier = admitted(order, capacity, history.drop_last());
        if newest(earlier, capacity).contains(history.last()) {
            earlier
        } else {
            earlier.push(history.last())
        }
    }
}

/// However many insertions are made, the resident elements stay distinct and
/// within capacity.
pub proof fn lemma_inserted_all_admissible<T>(order: Seq<T>, capacity: nat, history: Seq<T>)
    requires
        admissible(order, capacity),
    ensures
        admissible(inserted_all(order, capacity, history), capacity),
    decreases history.len(),
{
    if history.len() > 0 {
        let earlier = history.drop_last();
        lemma_inserted_all_admissible(order, capacity, earlier);
        lemma_inserted_admissible(inserted_all(order, capacity, earlier), capacity, history.last());
    }
}

/// Eviction is first in, first out: after any sequence of insertions the
/// resident elements are exactly the newest `capacity` admissions, in the
/// order of their admission.
pub proof fn lemma_resident_are_newest_admitted<T>(order: Seq<T>, capacity: nat, history: Seq<T>)
    requires
        order.len() <= capacity,
    ensures
        inserted_all(order, capacity, history) == newest(
            admitted(order, capacity, history),
            capacity,
        ),
    decreases history.len(),
{
    if history.len() > 0 {
        lemma_resident_are_newest_admitted(order, capacity, history.drop_last());
    }
}

/// After any sequence of insertions an element is resident if and only if
/// it has an admission that fewer than `capacity` admissions followed.
pub proof fn lemma_resident_iff_recently_admitted<T>(
    order: Seq<T>,
    capacity: nat,
    history: Seq<T>,
    element: T,
)
    requires
        order.len() <= capacity,
    ensures
        ({
            let all = admitted(order, capacity, history);
            inserted_all(order, capacity, history).contains(element) <==> exists|i: int|
                0 <= i < all.len() && all.len() - 1 - i < capacity && #[trigger] all[i] == element
        }),
{
    let all = admitted(order, capacity, history);
    let resident = inserted_all(order, capacity, history);
    lemma_resident_are_newest_admitted(order, capacity, history);
    let start: int = all.len() - resident.len();
    if resident.contains(element) {
        let j = choose|j: int| 0 <= j < resident.len() && resident[j] == element;
        assert(all[start + j] == element);
    }
    if exists|i: int| start <= i < all.len() && all[i] == element {
        let i = choose|i: int| start <= i < all.len() && all[i] == element;
        assert(resident[i - start] == element);
    }
}

/// Insertions of elements that are all different, and different from the
/// resident ones, are all admitted.
pub proof fn lemma_distinct_all_admitted<T>(order: Seq<T>, capacity: nat, fresh: Seq<T>)
    requires
        (order + fresh).no_duplicates(),
    ensures
        admitted(order, capacity, fresh) == order + fresh,
    decreases fresh.len(),
{
    if fresh.len() > 0 {
        let all = order + fresh;
        let before = order + fresh.drop_last();
        let window = newest(before, capacity);
        assert(before == all.drop_last());
        lemma_distinct_all_admitted(order, capacity, fresh.drop_last());
        if window.contains(all.last()) {
            let i = choose|i: int| 0 <= i < window.len() && window[i] == all.last();
            let at: int = before.len() - window.len() + i;
            assert(all[at] == all[all.len() - 1]);
        }
    }
}

/// After insertions of elements that are all different, and different from
/// the resident ones, the resident elements are the last `capacity` of all
/// of them.
pub proof fn lemma_distinct_keep_newest<T>(order: Seq<T>, capacity: nat, fresh: Seq<T>)
    requires
        admissible(order, capacity),
        (order + fresh).no_duplicates(),
    ensures
        inserted_all(order, capacity, fresh) == newest(order + fresh, capacity),
{
    lemma_resident_are_newest_admitted(order, capacity, fresh);
    lemma_distinct_all_admitted(order, capacity, fresh);
}

/// Among elements that are all different, one is resident if and only if
/// fewer than `capacity` others came after it.
pub proof fn lemma_distinct_resident_iff_recent<T>(
    order: Seq<T>,
    capacity: nat,
    fresh: Seq<T>,
    i: int,
)
    requires
        admissible(order, capacity),
        (order + fresh).no_duplicates(),
        0 <= i < (order + fresh).len(),
    ensures
        inserted_all(order, capacity, fresh).contains((order + fresh)[i]) <==> (order
            + fresh).len() - 1 - i < capacity,
{
    let all = order + fresh;
    let resident = inserted_all(order, capacity, fresh);
    lemma_distinct_keep_newest(order, capacity, fresh);
    let start: int = all.len() - resident.len();
    if all.len() - 1 - i < capacity {
        assert(resident[i - start] == all[i]);
    }
    if resident.contains(all[i]) {
        let j = choose|j: int| 0 <= j < resident.len() && resident[j] == all[i];
        assert(all[start + j] == all[i]);
    }
}

/// One element more than fits, all different, inserted into an empty set:
/// the first is gone and all the others are resident.
pub proof fn lemma_overflow_evicts_first<T>(capacity: nat, elements: Seq<T>)
    requires
        elements.no_duplicates(),
        elements.len() == capacity + 1,
    ensures
        !inserted_all(Seq::empty(), capacity, elements).contains(elements[0]),
        forall|i: int|
            1 <= i <= capacity ==> inserted_all(Seq::empty(), capacity, elements).contains(
                #[trigger] elements[i],
            ),
{
    let empty = Seq::<T>::empty();
    assert(empty + elements == elements);
    lemma_distinct_resident_iff_recent(empty, capacity, elements, 0);
    assert forall|i: int| 1 <= i <= capacity implies inserted_all(
        empty,
        capacity,
        elements,
    ).contains(#[trigger] elements[i]) by {
        lemma_distinct_resident_iff_recent(empty, capacity, elements, i);
    }
}

/// Inserting the same element twice in a row is the same as inserting it
/// once: the second insertion changes nothing. Where there is any room, it
/// evicts nobody; with no room at all, each insertion evicts what it
/// inserted.
pub proof fn lemma_repeated_insert_unchanged<T>(order: Seq<T>, capacity: nat, element: T)
    ensures
        inserted(inserted(order, capacity, element), capacity, element) == inserted(
            order,
            capacity,
            element,
        ),
        capacity > 0 ==> evicted(inserted(order, capacity, element), capacity, element) is None,
{
    let once = inserted(order, capacity, element);
    if !order.contains(element) && once.len() > 0 {
        assert(once.last() == element);
    }
}

/// Inserting a resident element again does not make it younger. In a full
/// set, after the oldest element is inserted again and then a new one, it is
/// the oldest that has left; the others have moved up and the new one is last.
pub proof fn lemma_reinsert_keeps_age<T>(order: Seq<T>, capacity: nat, fresh: T)
    requires
        admissible(order, capacity),
        order.len() == capacity,
        capacity >= 1,
        !order.contains(fresh),
    ensures
        inserted(inserted(order, capacity, order[0]), capacity, fresh) == order.drop_first().push(
            fresh,
        ),
        !inserted(inserted(order, capacity, order[0]), capacity, fresh).contains(order[0]),
        forall|i: int|
            1 <= i < capacity ==> inserted(
                inserted(order, capacity, order[0]),
                capacity,
                fresh,
            ).contains(#[trigger] order[i]),
{
    let result = inserted(inserted(order, capacity, order[0]), capacity, fresh);
    assert(order.contains(order[0]));
    assert(result == order.drop_first().push(fresh));
    if result.contains(order[0]) {
        let j = choose|j: int| 0 <= j < result.len() && result[j] == order[0];
        assert(j < capacity - 1 ==> order[j + 1] == order[0]);
    }
    assert forall|i: int| 1 <= i < capacity implies result.contains(#[trigger] order[i]) by {
        assert(result[i - 1] == order[i]);
    }
}

/// An empty set is filled with the first `capacity` of `elements`, all
/// different; then the first is inserted again, then the last of them, which
/// is new. It is the first that leaves, and everyone else is resident.
pub proof fn lemma_reinsert_after_fill<T>(capacity: nat, elements: Seq<T>)
    requires
        elements.no_duplicates(),
        elements.len() == capacity + 1,
        capacity >= 1,
    ensures
        !inserted_all(
            Seq::empty(),
            capacity,
            elements.take(capacity as int).push(elements[0]).push(elements[capacity as int]),
        ).contains(elements[0]),
        forall|i: int|
            1 <= i <= capacity ==> inserted_all(
                Seq::empty(),
                capacity,
                elements.take(capacity as int).push(elements[0]).push(elements[capacity as int]),
            ).contains(#[trigger] elements[i]),
{
    let empty = Seq::<T>::empty();
    let fill = elements.take(capacity as int);
    let again = fill.push(elements[0]);
    let history = again.push(elements[capacity as int]);
    let last = elements[capacity as int];
    let result = inserted_all(empty, capacity, history);

    assert(empty + fill == fill);
    lemma_distinct_keep_newest(empty, capacity, fill);
    assert(again.drop_last() == fill);
    assert(history.drop_last() == again);
    assert(inserted_all(empty, capacity, again) == inserted(fill, capacity, fill[0]));
    assert(result == inserted(inserted(fill, capacity, fill[0]), capacity, last));
    if fill.contains(last) {
        let j = choose|j: int| 0 <= j < fill.len() && fill[j] == last;
        assert(elements[j] == elements[capacity as int]);
    }
    lemma_reinsert_keeps_age(fill, capacity, last);
    assert forall|i: int| 1 <= i <= capacity implies result.contains(#[trigger] elements[i]) by {
        assert(result[i - 1] == elements[i]);
    }
}

} // verus!
