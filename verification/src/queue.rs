//! What is asked of a queue of key events, oldest first: to keep the newest, and
//! to give out those of certain keys and leave the rest as they were.

use crate::event::KeyEvent;
use vstd::prelude::*;

verus! {

/// The newest `n` of `events`, or all of them where there are no more.
pub open spec fn newest(events: Seq<KeyEvent>, n: nat) -> Seq<KeyEvent> {
    if events.len() > n {
        events.skip(events.len() - n)
    } else {
        events
    }
}

/// Whether `mask` asks for events of this event's key.
pub open spec fn is_match(mask: Seq<bool>, event: KeyEvent) -> bool {
    mask[event.key_index as int]
}

/// The events that match `mask`, in order.
pub open spec fn matching(events: Seq<KeyEvent>, mask: Seq<bool>) -> Seq<KeyEvent> {
    events.filter(|event: KeyEvent| is_match(mask, event))
}

/// The events that do not match `mask`, in order.
pub open spec fn not_matching(events: Seq<KeyEvent>, mask: Seq<bool>) -> Seq<KeyEvent> {
    events.filter(|event: KeyEvent| !is_match(mask, event))
}

/// What is left of `events`, in order, without the oldest `n` that match `mask`.
pub open spec fn without_matching(events: Seq<KeyEvent>, mask: Seq<bool>, n: nat) -> Seq<KeyEvent>
    decreases events.len(),
{
    if events.len() == 0 {
        events
    } else {
        let older = events.drop_last();
        let left = without_matching(older, mask, n);
        if is_match(mask, events.last()) && matching(older, mask).len() < n {
            left
        } else {
            left.push(events.last())
        }
    }
}

/// Events numbered in the order in which they stand.
pub open spec fn in_number_order(events: Seq<KeyEvent>) -> bool {
    forall|i: int, j: int|
        0 <= i < j < events.len() ==> (#[trigger] events[i]).event_num < (
        #[trigger] events[j]).event_num
}

/// What one more event adds to the matching ones.
pub proof fn lemma_matching_push(events: Seq<KeyEvent>, mask: Seq<bool>, event: KeyEvent)
    ensures
        is_match(mask, event) ==> matching(events.push(event), mask) == matching(
            events,
            mask,
        ).push(event),
        !is_match(mask, event) ==> matching(events.push(event), mask) == matching(events, mask),
{
    let pred = |e: KeyEvent| is_match(mask, e);
    events.lemma_filter_push(event, pred);
}

/// What one more event adds to those that do not match.
proof fn lemma_not_matching_push(events: Seq<KeyEvent>, mask: Seq<bool>, event: KeyEvent)
    ensures
        !is_match(mask, event) ==> not_matching(events.push(event), mask) == not_matching(
            events,
            mask,
        ).push(event),
        is_match(mask, event) ==> not_matching(events.push(event), mask) == not_matching(
            events,
            mask,
        ),
{
    let pred = |e: KeyEvent| !is_match(mask, e);
    events.lemma_filter_push(event, pred);
}

/// What one more event adds to what is left.
pub proof fn lemma_without_matching_push(
    events: Seq<KeyEvent>,
    mask: Seq<bool>,
    n: nat,
    event: KeyEvent,
)
    ensures
        without_matching(events.push(event), mask, n) == if is_match(mask, event) && matching(
            events,
            mask,
        ).len() < n {
            without_matching(events, mask, n)
        } else {
            without_matching(events, mask, n).push(event)
        },
{
    assert(events.push(event).drop_last() =~= events);
}

/// What is left is a part of what there was, in the same order.
pub proof fn lemma_without_matching_keeps_order(events: Seq<KeyEvent>, mask: Seq<bool>, n: nat)
    ensures
        without_matching(events, mask, n).len() <= events.len(),
        forall|i: int|
            0 <= i < without_matching(events, mask, n).len() ==> events.contains(
                #[trigger] without_matching(events, mask, n)[i],
            ),
        in_number_order(events) ==> in_number_order(without_matching(events, mask, n)),
    decreases events.len(),
{
    if events.len() > 0 {
        let older = events.drop_last();
        let left = without_matching(older, mask, n);
        let all_left = without_matching(events, mask, n);
        lemma_without_matching_keeps_order(older, mask, n);
        assert forall|i: int| 0 <= i < all_left.len() implies events.contains(
            #[trigger] all_left[i],
        ) by {
            if i < left.len() {
                let k = choose|k: int| 0 <= k < older.len() && older[k] == left[i];
                assert(events[k] == all_left[i]);
            } else {
                assert(events[events.len() - 1] == all_left[i]);
            }
        }
        if in_number_order(events) {
            assert(in_number_order(older));
            assert forall|i: int, j: int| 0 <= i < j < all_left.len() implies (
            #[trigger] all_left[i]).event_num < (#[trigger] all_left[j]).event_num by {
                if j == left.len() {
                    let k = choose|k: int| 0 <= k < older.len() && older[k] == left[i];
                    assert(events[k] == left[i]);
                    assert(events[events.len() - 1] == all_left[j]);
                }
            }
        }
    }
}

/// A mask that asks for every key matches every event.
pub proof fn lemma_full_mask(events: Seq<KeyEvent>, mask: Seq<bool>)
    requires
        forall|i: int| 0 <= i < events.len() ==> is_match(mask, #[trigger] events[i]),
    ensures
        matching(events, mask) == events,
    decreases events.len(),
{
    reveal(Seq::filter);
    if events.len() > 0 {
        lemma_full_mask(events.drop_last(), mask);
        assert(events =~= events.drop_last().push(events.last()));
    }
}

/// With a mask that asks for every key, the events that are taken are the oldest of all: those
/// that a peek at as many shows. What is left are the others, in order.
pub proof fn law_peek_shows_what_is_read_next(events: Seq<KeyEvent>, mask: Seq<bool>, n: nat)
    requires
        n <= events.len(),
        forall|i: int| 0 <= i < events.len() ==> is_match(mask, #[trigger] events[i]),
    ensures
        matching(events, mask).take(n as int) == events.take(n as int),
        without_matching(events, mask, n) == events.skip(n as int),
    decreases events.len(),
{
    lemma_full_mask(events, mask);
    if events.len() > 0 {
        let older = events.drop_last();
        lemma_full_mask(older, mask);
        if n <= older.len() {
            law_peek_shows_what_is_read_next(older, mask, n);
            assert(older.skip(n as int).push(events.last()) =~= events.skip(n as int));
        } else {
            lemma_all_taken(older, mask, n);
            assert(events.skip(n as int) =~= Seq::<KeyEvent>::empty());
        }
    }
}

/// Nothing is left where all match and there are no more than were asked for.
proof fn lemma_all_taken(events: Seq<KeyEvent>, mask: Seq<bool>, n: nat)
    requires
        events.len() <= n,
        forall|i: int| 0 <= i < events.len() ==> is_match(mask, #[trigger] events[i]),
    ensures
        without_matching(events, mask, n) == Seq::<KeyEvent>::empty(),
    decreases events.len(),
{
    if events.len() > 0 {
        lemma_full_mask(events.drop_last(), mask);
        lemma_all_taken(events.drop_last(), mask, n);
    }
}

/// What is kept of the newest is the end of what there was, as much of it as may be kept.
pub proof fn law_newest_is_the_end(events: Seq<KeyEvent>, n: nat)
    ensures
        newest(events, n).len() <= n,
        newest(events, n).len() <= events.len(),
        newest(events, n).len() == n || newest(events, n).len() == events.len(),
        newest(events, n) == events.skip(events.len() - newest(events, n).len()),
{
    assert(events.skip(0) =~= events);
}

/// The matching events are in the order in which they stood.
proof fn lemma_matching_keeps_order(events: Seq<KeyEvent>, mask: Seq<bool>)
    ensures
        forall|i: int|
            0 <= i < matching(events, mask).len() ==> events.contains(
                #[trigger] matching(events, mask)[i],
            ),
        in_number_order(events) ==> in_number_order(matching(events, mask)),
    decreases events.len(),
{
    if events.len() == 0 {
        reveal(Seq::filter);
    } else {
        let older = events.drop_last();
        let event = events.last();
        let found = matching(older, mask);
        let all_found = matching(events, mask);
        assert(events =~= older.push(event));
        lemma_matching_push(older, mask, event);
        lemma_matching_keeps_order(older, mask);
        assert forall|i: int| 0 <= i < all_found.len() implies events.contains(
            #[trigger] all_found[i],
        ) by {
            if i < found.len() {
                let k = choose|k: int| 0 <= k < older.len() && older[k] == found[i];
                assert(events[k] == all_found[i]);
            } else {
                assert(events[events.len() - 1] == all_found[i]);
            }
        }
        if in_number_order(events) {
            assert(in_number_order(older));
            assert forall|i: int, j: int| 0 <= i < j < all_found.len() implies (
            #[trigger] all_found[i]).event_num < (#[trigger] all_found[j]).event_num by {
                if j == found.len() {
                    let k = choose|k: int| 0 <= k < older.len() && older[k] == found[i];
                    assert(events[k] == found[i]);
                    assert(events[events.len() - 1] == all_found[j]);
                }
            }
        }
    }
}

/// A masked read keeps to its mask. What it may take are just the events of the keys that the
/// mask asks for; what it leaves holds every event of the other keys, up or down. What is taken
/// and what is left are each in the order of their numbers, and of the events that the mask
/// asks for the older are taken and the newer left.
pub proof fn law_masked_read_keeps_to_its_mask(events: Seq<KeyEvent>, mask: Seq<bool>, n: nat)
    requires
        n <= matching(events, mask).len(),
        forall|i: int, j: int|
            0 <= i < j < events.len() ==> (#[trigger] events[i]).event_num < (
            #[trigger] events[j]).event_num,
    ensures
        matching(events, mask).len() == events.filter(
            |event: KeyEvent| mask[event.key_index as int],
        ).len(),
        forall|i: int|
            0 <= i < n ==> mask[(#[trigger] matching(events, mask).take(
                n as int,
            )[i]).key_index as int],
        forall|i: int|
            0 <= i < n ==> events.contains(#[trigger] matching(events, mask).take(n as int)[i]),
        forall|k: int|
            0 <= k < events.len() && !mask[(#[trigger] events[k]).key_index as int]
                ==> without_matching(events, mask, n).contains(events[k]),
        forall|k: int|
            0 <= k < events.len() ==> matching(events, mask).take(n as int).contains(
                #[trigger] events[k],
            ) || without_matching(events, mask, n).contains(events[k]),
        forall|i: int, j: int|
            0 <= i < j < n ==> (#[trigger] matching(events, mask).take(n as int)[i]).event_num < (
            #[trigger] matching(events, mask).take(n as int)[j]).event_num,
        forall|i: int, j: int|
            0 <= i < j < without_matching(events, mask, n).len() ==> (
            #[trigger] without_matching(events, mask, n)[i]).event_num < (
            #[trigger] without_matching(events, mask, n)[j]).event_num,
        forall|i: int, j: int|
            0 <= i < n && 0 <= j < without_matching(events, mask, n).len()
                && mask[without_matching(events, mask, n)[j].key_index as int] ==> (
            #[trigger] matching(events, mask).take(n as int)[i]).event_num < (
            #[trigger] without_matching(events, mask, n)[j]).event_num,
{
    broadcast use vstd::seq_lib::group_to_multiset_ensures;

    let found = matching(events, mask);
    let read = found.take(n as int);
    let left = without_matching(events, mask, n);
    let asked = |event: KeyEvent| is_match(mask, event);
    let not_asked = |event: KeyEvent| !is_match(mask, event);
    assert(asked =~= |event: KeyEvent| mask[event.key_index as int]);
    assert(in_number_order(events));
    lemma_matching_keeps_order(events, mask);
    lemma_without_matching_keeps_order(events, mask, n);
    law_taking_leaves_the_rest(events, mask, n);
    assert forall|i: int| 0 <= i < n implies mask[(#[trigger] read[i]).key_index as int]
        && events.contains(read[i]) by {
        events.lemma_filter_pred(asked, i);
        assert(read[i] == found[i]);
    }
    assert forall|k: int|
        0 <= k < events.len() && !mask[(
        #[trigger] events[k]).key_index as int] implies left.contains(events[k]) by {
        events.lemma_filter_contains(not_asked, k);
        assert(left.filter(not_asked).contains(events[k]));
        left.lemma_filter_contains_rev(not_asked, events[k]);
    }
    assert forall|k: int| 0 <= k < events.len() implies read.contains(#[trigger] events[k])
        || left.contains(events[k]) by {
        assert(events.to_multiset().count(events[k]) > 0);
        assert(read.to_multiset().count(events[k]) > 0 || left.to_multiset().count(events[k]) > 0);
    }
    assert forall|i: int, j: int|
        0 <= i < n && 0 <= j < left.len() && mask[left[j].key_index as int] implies (
    #[trigger] read[i]).event_num < (#[trigger] left[j]).event_num by {
        left.lemma_filter_contains(asked, j);
        let k = choose|k: int|
            0 <= k < found.skip(n as int).len() && found.skip(n as int)[k] == left[j];
        assert(found[k + n] == left[j]);
        assert(found[i] == read[i]);
    }
}

/// Taking the oldest `n` matching events leaves every event that does not match
/// where it was among its like, and the matching ones that come after the first
/// `n`. Nothing is lost and nothing is added.
pub proof fn law_taking_leaves_the_rest(events: Seq<KeyEvent>, mask: Seq<bool>, n: nat)
    requires
        matching(events, mask).len() >= n,
    ensures
        not_matching(without_matching(events, mask, n), mask) == not_matching(events, mask),
        matching(without_matching(events, mask, n), mask) == matching(events, mask).skip(n as int),
        without_matching(events, mask, n).len() + n == events.len(),
        matching(events, mask).take(n as int).to_multiset().add(
            without_matching(events, mask, n).to_multiset(),
        ) == events.to_multiset(),
{
    lemma_taking_leaves_the_rest(events, mask, n);
}

/// The same, also where there are fewer than `n` matching events.
proof fn lemma_taking_leaves_the_rest(events: Seq<KeyEvent>, mask: Seq<bool>, n: nat)
    ensures
        not_matching(without_matching(events, mask, n), mask) == not_matching(events, mask),
        matching(events, mask).len() <= n ==> matching(without_matching(events, mask, n), mask)
            == Seq::<KeyEvent>::empty(),
        matching(events, mask).len() <= n ==> matching(events, mask).to_multiset().add(
            without_matching(events, mask, n).to_multiset(),
        ) == events.to_multiset(),
        matching(events, mask).len() >= n ==> matching(without_matching(events, mask, n), mask)
            == matching(events, mask).skip(n as int),
        matching(events, mask).len() >= n ==> matching(events, mask).take(
            n as int,
        ).to_multiset().add(without_matching(events, mask, n).to_multiset())
            == events.to_multiset(),
        matching(events, mask).len() >= n ==> without_matching(events, mask, n).len() + n
            == events.len(),
        matching(events, mask).len() <= n ==> without_matching(events, mask, n).len() + matching(
            events,
            mask,
        ).len() == events.len(),
    decreases events.len(),
{
    broadcast use vstd::seq_lib::group_to_multiset_ensures;

    if events.len() == 0 {
        reveal(Seq::filter);
        assert(matching(events, mask) =~= events);
        assert(events.skip(0) =~= events);
        assert(events.take(0) =~= events);
        assert(events.to_multiset().add(events.to_multiset()) =~= events.to_multiset());
    } else {
        let older = events.drop_last();
        let event = events.last();
        let found = matching(older, mask);
        let left = without_matching(older, mask, n);
        assert(events =~= older.push(event));
        lemma_taking_leaves_the_rest(older, mask, n);
        lemma_matching_push(older, mask, event);
        lemma_not_matching_push(older, mask, event);
        lemma_matching_push(left, mask, event);
        lemma_not_matching_push(left, mask, event);
        lemma_without_matching_push(older, mask, n, event);
        if is_match(mask, event) {
            if found.len() < n {
                assert(found.push(event).take(n as int) =~= found.push(event) || found.len() + 1
                    < n);
                assert(found.push(event).skip(n as int) =~= Seq::<KeyEvent>::empty() || found.len()
                    + 1 < n);
                assert(found.push(event).to_multiset().add(left.to_multiset())
                    =~= older.to_multiset().insert(event));
            } else {
                assert(found.push(event).skip(n as int) =~= found.skip(n as int).push(event));
                assert(found.push(event).take(n as int) =~= found.take(n as int));
                assert(found.take(n as int).to_multiset().add(left.push(event).to_multiset())
                    =~= older.to_multiset().insert(event));
            }
        } else {
            if found.len() <= n {
                assert(found.to_multiset().add(left.push(event).to_multiset())
                    =~= older.to_multiset().insert(event));
            }
            if found.len() >= n {
                assert(found.take(n as int).to_multiset().add(left.push(event).to_multiset())
                    =~= older.to_multiset().insert(event));
            }
        }
    }
}

} // verus!
