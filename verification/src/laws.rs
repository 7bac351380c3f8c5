//! What holds of the keypad as a whole, across calls.

use crate::cust_reg::{deadline_after, id_used, keep_waiting, lemma_reg_valid, WaitStep};
use crate::event::{KeyEvent, KeyPosition};
use crate::hw_specific::NUM_KEYS;
use crate::keybow::{
    distinct_ids, lemma_other_slot, lemma_slot_of, lemma_with_reg, open_in, reg_became,
    DebounceState, KeybowView, SlotView, UnstableState,
};
use crate::keys::{all_received, law_settling_tells_everyone, lemma_open_slots, open_slots};
use crate::queue::{
    is_match, law_masked_read_keeps_to_its_mask, law_newest_is_the_end,
    law_taking_leaves_the_rest, matching, newest,
};
use crate::registration::RegView;
use crate::wake::LONGEST_WAIT;
use std::time::{Instant, SystemTime};
use vstd::prelude::*;

verus! {

/// A change of a key, as a registration hears of it.
pub struct KeyChange {
    pub key_index: usize,
    pub key_position: KeyPosition,
    pub key_instant: Instant,
    pub key_systime: SystemTime,
    pub up_down_values: [KeyPosition; NUM_KEYS],
}

impl RegView {
    /// The registration once it has heard of a change.
    pub open spec fn heard(self, change: KeyChange) -> RegView {
        self.received(
            change.key_index,
            change.key_position,
            change.key_instant,
            change.key_systime,
            change.up_down_values,
        )
    }

    /// The registration once it has heard of all these changes, and none of its events
    /// was read.
    pub open spec fn heard_all(self, changes: Seq<KeyChange>) -> RegView
        decreases changes.len(),
    {
        if changes.len() == 0 {
            self
        } else {
            self.heard_all(changes.drop_last()).heard(changes.last())
        }
    }

    /// The events that these changes make for the client, in order.
    pub open spec fn events_of(self, changes: Seq<KeyChange>) -> Seq<KeyEvent>
        decreases changes.len(),
    {
        if changes.len() == 0 {
            Seq::empty()
        } else {
            let before = self.heard_all(changes.drop_last());
            let events = self.events_of(changes.drop_last());
            let change = changes.last();
            if self.wants(change.key_index as int, change.key_position) {
                events.push(
                    before.event_for(
                        change.key_index,
                        change.key_position,
                        change.key_instant,
                        change.key_systime,
                        change.up_down_values,
                    ),
                )
            } else {
                events
            }
        }
    }
}

/// The newest of the newest and one more are the newest of all.
proof fn lemma_newest_push(events: Seq<KeyEvent>, event: KeyEvent, n: nat)
    ensures
        newest(newest(events, n).push(event), n) == newest(events.push(event), n),
{
    assert(newest(newest(events, n).push(event), n) =~= newest(events.push(event), n));
}

/// A queue holds the newest events that the client asked for, as many as it was asked to
/// hold: if it overflows the oldest are discarded. The events are numbered one by one, in
/// the order in which they came, discarded ones included.
pub proof fn law_overflow_discards_the_oldest(reg: RegView, changes: Seq<KeyChange>)
    requires
        reg.valid(),
        reg.event_count + changes.len() <= usize::MAX,
    ensures
        reg.heard_all(changes).queue == newest(
            reg.queue + reg.events_of(changes),
            reg.queue_length,
        ),
        reg.heard_all(changes).event_count == reg.event_count + reg.events_of(changes).len(),
        forall|i: int|
            0 <= i < reg.events_of(changes).len() ==> (#[trigger] reg.events_of(
                changes,
            )[i]).event_num == reg.event_count + 1 + i,
{
    lemma_heard_all(reg, changes);
}

/// What a queue holds, once changes were heard and no event was read, is the end of all the
/// events that there were, as many of them as it may hold: an event that was discarded is older
/// than any that is queued.
pub proof fn law_queue_is_the_end_of_all_events(reg: RegView, changes: Seq<KeyChange>)
    requires
        reg.valid(),
        reg.event_count + changes.len() <= usize::MAX,
    ensures
        ({
            let all = reg.queue + reg.events_of(changes);
            let queue = reg.heard_all(changes).queue;
            &&& queue.len() <= reg.queue_length
            &&& queue.len() <= all.len()
            &&& queue.len() == reg.queue_length || queue.len() == all.len()
            &&& queue == all.skip(all.len() - queue.len())
            &&& forall|i: int, j: int|
                0 <= i < all.len() - queue.len() && 0 <= j < queue.len() ==> (
                #[trigger] all[i]).event_num < (#[trigger] queue[j]).event_num
        }),
{
    let events = reg.events_of(changes);
    let all = reg.queue + events;
    let queue = reg.heard_all(changes).queue;
    lemma_heard_all(reg, changes);
    law_newest_is_the_end(all, reg.queue_length);
    let gone = all.len() - queue.len();
    assert forall|i: int, j: int| 0 <= i < gone && 0 <= j < queue.len() implies (
    #[trigger] all[i]).event_num < (#[trigger] queue[j]).event_num by {
        let k = j + gone;
        assert(queue[j] == all[k]);
        if i < reg.queue.len() {
            assert(reg.valid_event(reg.queue[i]));
            if k < reg.queue.len() {
                assert(reg.queue[i].event_num < reg.queue[k].event_num);
            } else {
                assert(events[k - reg.queue.len()].event_num == reg.event_count + 1 + k
                    - reg.queue.len());
            }
        } else {
            assert(events[i - reg.queue.len()].event_num == reg.event_count + 1 + i
                - reg.queue.len());
            assert(events[k - reg.queue.len()].event_num == reg.event_count + 1 + k
                - reg.queue.len());
        }
    }
}

/// The events that changes make for a client are, one for one and in order, of those changes that
/// it asked for: a key that went down by the one mask, a key that went up by the other. Each
/// event says what its change was, with the positions of all the keys at the time, and has the
/// character of its key and the next number.
pub proof fn law_events_tell_of_what_was_asked(reg: RegView, changes: Seq<KeyChange>)
    requires
        reg.valid(),
        reg.event_count + changes.len() <= usize::MAX,
    ensures
        ({
            let asked = changes.filter(
                |change: KeyChange|
                    if change.key_position is Down {
                        reg.keydown_mask[change.key_index as int]
                    } else {
                        reg.keyup_mask[change.key_index as int]
                    },
            );
            let events = reg.events_of(changes);
            &&& events.len() == asked.len()
            &&& forall|i: int|
                0 <= i < events.len() ==> (#[trigger] events[i]).key_index == asked[i].key_index
                    && events[i].key_position == asked[i].key_position && events[i].event_instant
                    == asked[i].key_instant && events[i].event_systime == asked[i].key_systime
                    && events[i].up_down_values == asked[i].up_down_values && events[i].char
                    == reg.key_mapping[asked[i].key_index as int] && events[i].event_num
                    == reg.event_count + 1 + i
        }),
    decreases changes.len(),
{
    let is_asked = |change: KeyChange|
        if change.key_position is Down {
            reg.keydown_mask[change.key_index as int]
        } else {
            reg.keyup_mask[change.key_index as int]
        };
    lemma_heard_all(reg, changes);
    if changes.len() == 0 {
        reveal(Seq::filter);
    } else {
        let earlier = changes.drop_last();
        assert(changes =~= earlier.push(changes.last()));
        earlier.lemma_filter_push(changes.last(), is_asked);
        law_events_tell_of_what_was_asked(reg, earlier);
        lemma_heard_all(reg, earlier);
        let events = reg.events_of(changes);
        assert forall|i: int| 0 <= i < events.len() implies (#[trigger] events[i]).event_num
            == reg.event_count + 1 + i by {}
        assert forall|i: int| 0 <= i < reg.events_of(earlier).len() implies #[trigger] events[i]
            == reg.events_of(earlier)[i] by {}
    }
}

/// What a registration is once it has heard of one change. Where the mask of the position does
/// not ask for the key nothing changes. Where it does, the event is numbered and announced, and,
/// unless the queue may hold nothing, it stands last in the queue; before it stand the newest of
/// those that stood there, in order, as many as there is room for.
pub proof fn law_one_change_heard(
    reg: RegView,
    key_index: usize,
    key_position: KeyPosition,
    key_instant: Instant,
    key_systime: SystemTime,
    up_down_values: [KeyPosition; NUM_KEYS],
)
    requires
        reg.event_count < usize::MAX,
        reg.queue.len() <= reg.queue_length <= usize::MAX,
    ensures
        ({
            let after = reg.received(
                key_index,
                key_position,
                key_instant,
                key_systime,
                up_down_values,
            );
            let asked = if key_position is Down {
                reg.keydown_mask[key_index as int]
            } else {
                reg.keyup_mask[key_index as int]
            };
            let event = after.queue.last();
            let gone = reg.queue.len() + 1 - after.queue.len();
            &&& !asked ==> after == reg
            &&& asked ==> {
                &&& after == (RegView {
                    queue: after.queue,
                    event_count: reg.event_count + 1,
                    wakes: after.wakes,
                    ..reg
                })
                &&& after.wakes.sync == reg.wakes.sync.push((reg.event_count + 1) as usize)
                &&& after.wakes.async_count == reg.wakes.async_count + 1
                &&& after.wakes.waiting == Some((reg.event_count + 1) as usize)
                &&& reg.queue.len() < reg.queue_length ==> after.queue.len() == reg.queue.len() + 1
                &&& reg.queue.len() == reg.queue_length ==> after.queue.len() == reg.queue.len()
                &&& after.queue.len() > 0 ==> {
                    &&& event.key_index == key_index
                    &&& event.char == reg.key_mapping[key_index as int]
                    &&& event.key_position == key_position
                    &&& event.event_instant == key_instant
                    &&& event.event_systime == key_systime
                    &&& event.up_down_values == up_down_values
                    &&& event.event_num == reg.event_count + 1
                    &&& event.additional_events_still_queued == after.queue.len()
                }
                &&& forall|i: int|
                    0 <= i < after.queue.len() - 1 ==> #[trigger] after.queue[i] == reg.queue[i
                        + gone]
            }
        }),
{
}

/// A new registration has the masks, the characters and the length of queue that it was given,
/// in these places, and has heard and sent nothing.
pub proof fn law_new_registration_is_as_asked(
    keydown_mask: Seq<bool>,
    keyup_mask: Seq<bool>,
    queue_length: nat,
    key_mapping: Seq<char>,
    sync_channel: nat,
    async_channel: nat,
)
    ensures
        ({
            let reg = RegView::fresh(
                keydown_mask,
                keyup_mask,
                queue_length,
                key_mapping,
                sync_channel,
                async_channel,
            );
            &&& reg.keydown_mask == keydown_mask
            &&& reg.keyup_mask == keyup_mask
            &&& reg.queue_length == queue_length
            &&& reg.key_mapping == key_mapping
            &&& reg.sync_channel == sync_channel
            &&& reg.async_channel == async_channel
            &&& reg.queue.len() == 0
            &&& reg.event_count == 0
            &&& reg.wakes.sync.len() == 0
            &&& reg.wakes.async_count == 0
            &&& reg.wakes.waiting is None
        }),
{
}

/// A masked read of `n` events gives them where there are so many of the keys that the mask asks
/// for, whatever became of the keys, and changes nothing but the queue. What it gives are events
/// of those keys alone, the oldest of them; what it leaves holds every event of the other keys.
/// Nothing is lost or made, and both are in the order of their numbers.
pub proof fn law_masked_read(reg: RegView, mask: Seq<bool>, n: nat)
    requires
        reg.valid(),
    ensures
        ({
            let read = matching(reg.queue, mask).take(n as int);
            let left = reg.taken(mask, n).queue;
            &&& reg.has_matching(mask, n) <==> reg.queue.filter(
                |event: KeyEvent| mask[event.key_index as int],
            ).len() >= n
            &&& reg.taken(mask, n) == (RegView { queue: left, ..reg })
            &&& reg.has_matching(mask, n) ==> {
                &&& read.len() == n
                &&& read.len() + left.len() == reg.queue.len()
                &&& read.to_multiset().add(left.to_multiset()) == reg.queue.to_multiset()
                &&& forall|i: int| 0 <= i < n ==> mask[(#[trigger] read[i]).key_index as int]
                &&& forall|k: int|
                    0 <= k < reg.queue.len() && !mask[(
                    #[trigger] reg.queue[k]).key_index as int] ==> left.contains(reg.queue[k])
                &&& forall|i: int, j: int|
                    0 <= i < j < n ==> (#[trigger] read[i]).event_num < (
                    #[trigger] read[j]).event_num
                &&& forall|i: int, j: int|
                    0 <= i < j < left.len() ==> (#[trigger] left[i]).event_num < (
                    #[trigger] left[j]).event_num
                &&& forall|i: int, j: int|
                    0 <= i < n && 0 <= j < left.len() && mask[left[j].key_index as int] ==> (
                    #[trigger] read[i]).event_num < (#[trigger] left[j]).event_num
            }
        }),
{
    law_masked_read_keeps_to_its_mask(reg.queue, mask, 0);
    if reg.has_matching(mask, n) {
        law_masked_read_keeps_to_its_mask(reg.queue, mask, n);
        law_taking_leaves_the_rest(reg.queue, mask, n);
    }
}

proof fn lemma_heard_all(reg: RegView, changes: Seq<KeyChange>)
    requires
        reg.valid(),
        reg.event_count + changes.len() <= usize::MAX,
    ensures
        reg.events_of(changes).len() <= changes.len(),
        reg.heard_all(changes).queue == newest(
            reg.queue + reg.events_of(changes),
            reg.queue_length,
        ),
        reg.heard_all(changes).event_count == reg.event_count + reg.events_of(changes).len(),
        reg.heard_all(changes).keydown_mask == reg.keydown_mask,
        reg.heard_all(changes).keyup_mask == reg.keyup_mask,
        reg.heard_all(changes).key_mapping == reg.key_mapping,
        reg.heard_all(changes).queue_length == reg.queue_length,
        forall|i: int|
            0 <= i < reg.events_of(changes).len() ==> (#[trigger] reg.events_of(
                changes,
            )[i]).event_num == reg.event_count + 1 + i,
    decreases changes.len(),
{
    if changes.len() == 0 {
        assert(reg.queue + Seq::<KeyEvent>::empty() =~= reg.queue);
    } else {
        let earlier = changes.drop_last();
        let change = changes.last();
        let before = reg.heard_all(earlier);
        let events = reg.events_of(earlier);
        lemma_heard_all(reg, earlier);
        if reg.wants(change.key_index as int, change.key_position) {
            let event = before.event_for(
                change.key_index,
                change.key_position,
                change.key_instant,
                change.key_systime,
                change.up_down_values,
            );
            lemma_newest_push(reg.queue + events, event, reg.queue_length);
            assert((reg.queue + events).push(event) =~= reg.queue + events.push(event));
        }
    }
}

/// The blocking clients are sent the number of every event that was made for them, in order,
/// and the async clients are sent a change for each: both can be used at the same time.
pub proof fn law_every_event_is_announced(reg: RegView, changes: Seq<KeyChange>)
    requires
        reg.valid(),
        reg.event_count + changes.len() <= usize::MAX,
    ensures
        reg.heard_all(changes).wakes.sync == reg.wakes.sync + reg.events_of(changes).map_values(
            |event: KeyEvent| event.event_num,
        ),
        reg.heard_all(changes).wakes.async_count == reg.wakes.async_count + reg.events_of(
            changes,
        ).len(),
    decreases changes.len(),
{
    let number = |event: KeyEvent| event.event_num;
    if changes.len() == 0 {
        assert(reg.wakes.sync + Seq::<KeyEvent>::empty().map_values(number) =~= reg.wakes.sync);
    } else {
        let earlier = changes.drop_last();
        let change = changes.last();
        let events = reg.events_of(earlier);
        law_every_event_is_announced(reg, earlier);
        lemma_heard_all(reg, earlier);
        if reg.wants(change.key_index as int, change.key_position) {
            let event = reg.heard_all(earlier).event_for(
                change.key_index,
                change.key_position,
                change.key_instant,
                change.key_systime,
                change.up_down_values,
            );
            assert(reg.heard_all(changes).wakes.sync =~= reg.wakes.sync + events.push(
                event,
            ).map_values(number));
        }
    }
}

/// No event is missed between a look at the queue and the wait that follows. For an async
/// client, what was sent before the look is `seen`, and there is news after it just where there
/// is a new event. For a blocking one, the number of the newest event stands in the channel,
/// unless a client has taken it, and it is another than stood there at the look just where
/// there is a new event.
pub proof fn law_event_after_the_look_is_news(reg: RegView, changes: Seq<KeyChange>, seen: nat)
    requires
        reg.valid(),
        reg.event_count + changes.len() <= usize::MAX,
        seen == reg.wakes.async_count,
    ensures
        reg.heard_all(changes).wakes.async_count > seen <==> reg.events_of(changes).len() > 0,
        reg.heard_all(changes).wakes.waiting == if reg.events_of(changes).len() > 0 {
            Some(reg.events_of(changes).last().event_num)
        } else {
            reg.wakes.waiting
        },
        reg.heard_all(changes).wakes.waiting != reg.wakes.waiting <==> reg.events_of(changes).len()
            > 0,
{
    law_every_event_is_announced(reg, changes);
    lemma_heard_all(reg, changes);
    lemma_waiting(reg, changes);
    if reg.wakes.sync.len() > 0 {
        assert(reg.wakes.sync[reg.wakes.sync.len() - 1] <= reg.event_count);
    }
}

/// Reading and clearing leave the news to those who wait: what stands in the blocking channel,
/// and what an async client has not seen, is the same after events were taken out of the queue.
pub proof fn law_reading_takes_no_news(reg: RegView, mask: Seq<bool>, n: nat)
    requires
        reg.valid(),
    ensures
        reg.taken(mask, n).wakes == reg.wakes,
        reg.with_queue(reg.queue.skip(1)).wakes == reg.wakes,
        reg.with_queue(Seq::empty()).wakes == reg.wakes,
{
}

/// The newest event is the one whose number waits in the blocking channel.
proof fn lemma_waiting(reg: RegView, changes: Seq<KeyChange>)
    requires
        reg.valid(),
        reg.event_count + changes.len() <= usize::MAX,
    ensures
        reg.heard_all(changes).wakes.waiting == if reg.events_of(changes).len() > 0 {
            Some(reg.events_of(changes).last().event_num)
        } else {
            reg.wakes.waiting
        },
    decreases changes.len(),
{
    if changes.len() > 0 {
        lemma_waiting(reg, changes.drop_last());
        lemma_heard_all(reg, changes.drop_last());
    }
}

/// What a wait does that has not found what it waits for: it is over just where the deadline
/// has passed, and else it blocks for the whole of the time that is left.
pub proof fn law_wait_is_over_just_after_its_deadline<T>(now: u64, deadline: u128)
    ensures
        keep_waiting::<T>(now, deadline) is TimedOut <==> now > deadline,
        keep_waiting::<T>(now, deadline) is Block <==> now <= deadline,
        now <= deadline ==> now + keep_waiting::<T>(now, deadline)->nanos == deadline,
{
}

/// A longer timeout never ends a wait earlier, and a wait that begins later never ends earlier.
/// Up to a billion years a wait ends when its time has passed, and longer ones end with that.
pub proof fn law_longer_waits_end_later(begun: u64, shorter: u128, longer: u128, begun_later: u64)
    requires
        shorter <= longer,
        begun <= begun_later,
    ensures
        deadline_after(begun, shorter) <= deadline_after(begun, longer),
        deadline_after(begun, shorter) <= deadline_after(begun_later, shorter),
        begun <= deadline_after(begun, shorter),
        longer <= LONGEST_WAIT ==> deadline_after(begun, longer) - deadline_after(begun, shorter)
            == longer - shorter,
        longer > LONGEST_WAIT ==> deadline_after(begun, longer) == begun + LONGEST_WAIT,
        shorter <= LONGEST_WAIT ==> deadline_after(begun, shorter) == begun + shorter,
        LONGEST_WAIT == 31_536_000_000_000_000 * 1_000_000_000,
{
}

/// A client that waits for an event of some keys finds one once a change of one of them has
/// come that it asked for, whatever else is queued, unless its queue may hold nothing.
pub proof fn law_event_ends_the_wait(reg: RegView, change: KeyChange, mask: Seq<bool>)
    requires
        reg.valid(),
        reg.queue_length > 0,
        change.key_index < NUM_KEYS,
        mask.len() == NUM_KEYS,
        reg.wants(change.key_index as int, change.key_position),
        mask[change.key_index as int],
    ensures
        reg.heard(change).has_matching(mask, 1),
{
    let queue = reg.heard(change).queue;
    let event = queue.last();
    assert(is_match(mask, event));
    let pred = |e: KeyEvent| is_match(mask, e);
    queue.lemma_filter_contains(pred, queue.len() - 1);
}

/// A wait never lasts beyond its deadline, nor ends before it for want of time: it blocks
/// for just the time that is left, which a blocking call can always take, and is given up
/// only once the deadline has passed.
pub proof fn law_wait_lasts_until_its_deadline(begun: u64, timeout: u128, now: u64)
    requires
        begun <= now,
    ensures
        ({
            let deadline = deadline_after(begun, timeout);
            match keep_waiting::<KeyEvent>(now, deadline as u128) {
                WaitStep::Block { nanos } => now + nanos == deadline && nanos <= LONGEST_WAIT,
                WaitStep::TimedOut => now > deadline,
                WaitStep::Ready(_) => false,
            }
        }),
        timeout <= LONGEST_WAIT ==> deadline_after(begun, timeout) == begun + timeout,
{
}

/// Clients do not disturb each other: what one does with its registration changes no
/// other, and nothing else of the keypad.
pub proof fn law_registrations_are_apart(keybow: KeybowView, id: u64, reg: RegView)
    requires
        keybow.valid(),
        keybow.is_open(id),
    ensures
        keybow.with_reg(id, reg).open_regs() == keybow.open_regs().insert(id, reg),
        keybow.with_reg(id, reg).leds == keybow.leds,
        keybow.with_reg(id, reg).brightness == keybow.brightness,
        keybow.with_reg(id, reg).debounce == keybow.debounce,
        keybow.with_reg(id, reg).positions == keybow.positions,
{
    lemma_with_reg(keybow, id, reg);
    assert(keybow.with_reg(id, reg).open_regs() =~= keybow.open_regs().insert(id, reg));
}

/// What a call of one client leaves behind is the keypad as it was, but for that client's own
/// registration.
pub proof fn law_a_call_changes_its_own_registration(
    before: KeybowView,
    after: KeybowView,
    id: u64,
    reg: RegView,
)
    requires
        before.valid(),
        before.is_open(id),
        reg_became(before, after, id, reg),
    ensures
        after == (KeybowView { regs: after.regs, ..before }),
        after.open_regs() == before.open_regs().insert(id, reg),
        after.regs.map_values(|slot: SlotView| slot.id) == before.regs.map_values(
            |slot: SlotView| slot.id,
        ),
{
    law_registrations_are_apart(before, id, reg);
    let at = choose|i: int|
        0 <= i < before.regs.len() && (#[trigger] before.regs[i]).id == id
            && before.regs[i].reg is Some;
    lemma_slot_of(before, id, at);
    assert(after.regs.map_values(|slot: SlotView| slot.id) =~= before.regs.map_values(
        |slot: SlotView| slot.id,
    ));
}

/// Registering adds one registration and changes no other.
pub proof fn law_registering_adds_one(keybow: KeybowView, id: u64, reg: RegView)
    requires
        keybow.valid(),
        !id_used(keybow.regs, id),
    ensures
        keybow.opened(id, reg).open_regs() == keybow.open_regs().insert(id, reg),
        !keybow.is_open(id),
{
    let after = keybow.opened(id, reg);
    let last = keybow.regs.len() as int;
    assert(distinct_ids(after.regs));
    assert(after.regs[last].id == id);
    lemma_slot_of(after, id, last);
    assert forall|other: u64| #![trigger open_in(after.regs, other)] other != id implies {
        &&& open_in(after.regs, other) == open_in(keybow.regs, other)
        &&& open_in(keybow.regs, other) ==> after.reg(other) == keybow.reg(other)
    } by {
        lemma_other_slot(keybow, after, last, other);
    }
    assert(after.open_regs() =~= keybow.open_regs().insert(id, reg));
}

/// A client that lets go of its registration changes no other.
pub proof fn law_closing_takes_one_away(keybow: KeybowView, id: u64)
    requires
        keybow.valid(),
        keybow.is_open(id),
    ensures
        keybow.closed(id).open_regs() == keybow.open_regs().remove(id),
{
    let after = keybow.closed(id);
    let at = choose|i: int|
        0 <= i < keybow.regs.len() && (#[trigger] keybow.regs[i]).id == id
            && keybow.regs[i].reg is Some;
    lemma_slot_of(keybow, id, at);
    assert(distinct_ids(after.regs));
    assert forall|other: u64| #![trigger open_in(after.regs, other)] other != id implies {
        &&& open_in(after.regs, other) == open_in(keybow.regs, other)
        &&& open_in(keybow.regs, other) ==> after.reg(other) == keybow.reg(other)
    } by {
        lemma_other_slot(keybow, after, at, other);
    }
    assert(after.open_regs() =~= keybow.open_regs().remove(id));
}

/// How many registrations are closed and not yet forgotten.
pub open spec fn closed_count(regs: Seq<SlotView>) -> nat
    decreases regs.len(),
{
    if regs.len() == 0 {
        0
    } else {
        closed_count(regs.drop_last()) + if regs.last().reg is None {
            1nat
        } else {
            0nat
        }
    }
}

proof fn lemma_closed_count_zero(regs: Seq<SlotView>)
    requires
        forall|j: int| 0 <= j < regs.len() ==> (#[trigger] regs[j]).reg is Some,
    ensures
        closed_count(regs) == 0,
    decreases regs.len(),
{
    if regs.len() > 0 {
        assert(regs.last().reg is Some);
        lemma_closed_count_zero(regs.drop_last());
    }
}

/// Those that hear of a change and then are open are those that are open, once they have heard.
proof fn lemma_received_open_slots(
    regs: Seq<SlotView>,
    key_index: usize,
    key_position: KeyPosition,
    key_instant: Instant,
    key_systime: SystemTime,
    up_down_values: [KeyPosition; NUM_KEYS],
)
    ensures
        open_slots(
            all_received(
                regs,
                key_index,
                key_position,
                key_instant,
                key_systime,
                up_down_values,
            ),
        ) == all_received(
            open_slots(regs),
            key_index,
            key_position,
            key_instant,
            key_systime,
            up_down_values,
        ),
    decreases regs.len(),
{
    reveal(Seq::filter);
    let heard = all_received(
        regs,
        key_index,
        key_position,
        key_instant,
        key_systime,
        up_down_values,
    );
    if regs.len() == 0 {
        assert(heard =~= regs);
        assert(open_slots(heard) =~= regs);
    } else {
        let older = regs.drop_last();
        lemma_received_open_slots(
            older,
            key_index,
            key_position,
            key_instant,
            key_systime,
            up_down_values,
        );
        assert(heard.drop_last() =~= all_received(
            older,
            key_index,
            key_position,
            key_instant,
            key_systime,
            up_down_values,
        ));
        assert(open_slots(heard) =~= all_received(
            open_slots(regs),
            key_index,
            key_position,
            key_instant,
            key_systime,
            up_down_values,
        ));
    }
}

/// When a key has settled every closed registration is forgotten, however many there are. What
/// is left are the open ones, in the order in which they stood, each of which has heard of it;
/// and there are as many of them as there are clients.
pub proof fn law_closed_registrations_are_forgotten(
    keybow: KeybowView,
    key_index: usize,
    key_position: KeyPosition,
    key_instant: Instant,
    key_systime: SystemTime,
)
    requires
        keybow.valid(),
    ensures
        ({
            let after = keybow.settled(key_index, key_position, key_instant, key_systime);
            &&& closed_count(after.regs) == 0
            &&& after.regs == all_received(
                open_slots(keybow.regs),
                key_index,
                key_position,
                key_instant,
                key_systime,
                after.positions,
            )
            &&& after.regs.len() == after.open_regs().dom().len()
            &&& forall|i: int| 0 <= i < after.regs.len() ==> (#[trigger] after.regs[i]).reg is Some
            &&& after.regs.map_values(|slot: SlotView| slot.id) == keybow.regs.filter(
                |slot: SlotView| slot.reg is Some,
            ).map_values(|slot: SlotView| slot.id)
        }),
{
    let after = keybow.settled(key_index, key_position, key_instant, key_systime);
    let heard = all_received(
        keybow.regs,
        key_index,
        key_position,
        key_instant,
        key_systime,
        after.positions,
    );
    assert(distinct_ids(heard));
    lemma_open_slots(heard);
    lemma_closed_count_zero(after.regs);
    lemma_received_open_slots(
        keybow.regs,
        key_index,
        key_position,
        key_instant,
        key_systime,
        after.positions,
    );
    let is_open = |slot: SlotView| slot.reg is Some;
    let id_of = |slot: SlotView| slot.id;
    lemma_open_slots_are_filtered(keybow.regs);
    assert(after.regs.map_values(id_of) =~= keybow.regs.filter(is_open).map_values(id_of));
    let ids = after.regs.map_values(|slot: SlotView| slot.id);
    assert(ids.no_duplicates());
    ids.unique_seq_to_set();
    assert forall|id: u64| ids.to_set().contains(id) implies after.open_regs().dom().contains(
        id,
    ) by {
        let i = choose|i: int| 0 <= i < ids.len() && ids[i] == id;
        assert(after.regs[i].id == id && after.regs[i].reg is Some);
    }
    assert forall|id: u64| after.open_regs().dom().contains(id) implies ids.to_set().contains(
        id,
    ) by {
        let i = choose|i: int|
            0 <= i < after.regs.len() && (#[trigger] after.regs[i]).id == id
                && after.regs[i].reg is Some;
        assert(ids[i] == id);
    }
    assert(after.open_regs().dom() =~= ids.to_set());
}

proof fn lemma_open_slots_are_filtered(regs: Seq<SlotView>)
    ensures
        open_slots(regs) == regs.filter(|slot: SlotView| slot.reg is Some),
{
}

/// A registration is found by its id where it stands in the list, while it is open, and one that
/// is closed or not in the list is not found.
pub proof fn law_registration_is_found_by_its_id(keybow: KeybowView, i: int, id: u64)
    requires
        keybow.valid(),
        0 <= i < keybow.regs.len(),
    ensures
        keybow.is_open(keybow.regs[i].id) <==> keybow.regs[i].reg is Some,
        keybow.regs[i].reg matches Some(reg) ==> keybow.reg(keybow.regs[i].id) == reg,
        (forall|j: int| 0 <= j < keybow.regs.len() ==> (#[trigger] keybow.regs[j]).id != id)
            ==> !keybow.is_open(id),
{
    lemma_slot_of(keybow, keybow.regs[i].id, i);
}

/// What a client does to its registration, and what letting go of it does, is done to its place
/// in the list alone; one that registers is put at the end. Nothing else of the keypad changes.
pub proof fn law_one_place_in_the_list_changes(keybow: KeybowView, i: int, id: u64, reg: RegView)
    requires
        keybow.valid(),
        0 <= i < keybow.regs.len(),
    ensures
        ({
            let own = keybow.regs[i].id;
            let changed = keybow.with_reg(own, reg);
            let closed = keybow.closed(own);
            let opened = keybow.opened(id, reg);
            &&& changed == (KeybowView { regs: changed.regs, ..keybow })
            &&& closed == (KeybowView { regs: closed.regs, ..keybow })
            &&& opened == (KeybowView { regs: opened.regs, ..keybow })
            &&& changed.regs.len() == keybow.regs.len()
            &&& closed.regs.len() == keybow.regs.len()
            &&& opened.regs.len() == keybow.regs.len() + 1
            &&& changed.regs[i].id == own && changed.regs[i].reg == Some(reg)
            &&& closed.regs[i].id == own && closed.regs[i].reg is None
            &&& opened.regs.last().id == id && opened.regs.last().reg == Some(reg)
            &&& forall|j: int|
                0 <= j < keybow.regs.len() && j != i ==> #[trigger] changed.regs[j]
                    == keybow.regs[j]
            &&& forall|j: int|
                0 <= j < keybow.regs.len() && j != i ==> #[trigger] closed.regs[j]
                    == keybow.regs[j]
            &&& forall|j: int|
                0 <= j < keybow.regs.len() ==> #[trigger] opened.regs[j] == keybow.regs[j]
        }),
{
    lemma_slot_of(keybow, keybow.regs[i].id, i);
}

/// Activity on the line of a key notes where the pin then was, a low one for a key that is down,
/// and the moment at which the threshold will have passed. Nothing else changes.
pub proof fn law_activity_is_noted(
    keybow: KeybowView,
    key_index: int,
    pin_low: bool,
    threshold: u64,
    now: u64,
)
    requires
        keybow.debounce.len() == NUM_KEYS,
        0 <= key_index < NUM_KEYS,
    ensures
        ({
            let after = keybow.active(key_index, pin_low, threshold, now);
            &&& after == (KeybowView { debounce: after.debounce, ..keybow })
            &&& after.debounce.len() == NUM_KEYS
            &&& after.debounce[key_index] matches DebounceState::Unstable(noted)
            &&& noted.raw_key_position is Down <==> pin_low
            &&& noted.test_stable_time == now + threshold
            &&& forall|other: int|
                0 <= other < NUM_KEYS && other != key_index ==> #[trigger] after.debounce[other]
                    == keybow.debounce[other]
        }),
{
}

/// A key has settled just where it is still moving and the time that is noted for it is the one
/// that was seen before the sleep, wherever the key was then.
pub proof fn law_settled_just_where_the_time_is_the_same(
    keybow: KeybowView,
    key_index: int,
    seen: UnstableState,
)
    ensures
        keybow.debounce[key_index] is Stable ==> !keybow.has_settled(key_index, seen),
        keybow.debounce[key_index] matches DebounceState::Unstable(noted) ==> (
        keybow.has_settled(key_index, seen) <==> noted.test_stable_time
            == seen.test_stable_time),
{
}

/// A change can be counted unless there is an open registration that asked for it, by the mask of
/// the position, and that has counted as many as it can.
pub proof fn law_counting_fails_only_at_the_limit(
    keybow: KeybowView,
    key_index: int,
    key_position: KeyPosition,
)
    ensures
        !keybow.can_count(key_index, key_position) <==> exists|i: int|
            0 <= i < keybow.regs.len() && ((#[trigger] keybow.regs[i]).reg matches Some(reg)
                && reg.event_count >= usize::MAX && if key_position is Down {
                reg.keydown_mask[key_index]
            } else {
                reg.keyup_mask[key_index]
            }),
{
}

/// When a key has settled its debounced position is the one it has settled in, it is stable,
/// and no other key is affected.
pub proof fn law_settling_is_of_one_key(
    keybow: KeybowView,
    key_index: usize,
    key_position: KeyPosition,
    key_instant: Instant,
    key_systime: SystemTime,
    other: int,
)
    requires
        keybow.valid(),
        key_index < NUM_KEYS,
        0 <= other < NUM_KEYS,
    ensures
        ({
            let after = keybow.settled(key_index, key_position, key_instant, key_systime);
            &&& after.positions@[key_index as int] == key_position
            &&& after.debounce[key_index as int] == DebounceState::Stable
            &&& other != key_index ==> after.positions@[other] == keybow.positions@[other]
            &&& other != key_index ==> after.debounce[other] == keybow.debounce[other]
            &&& after.leds == keybow.leds
            &&& after.brightness == keybow.brightness
        }),
{
}

/// Activity on the line of a key, as the callback finds it.
pub struct Activity {
    pub pin_low: bool,
    pub now: u64,
}

impl KeybowView {
    /// The keypad after a burst of activity on the line of a key.
    pub open spec fn bounced(
        self,
        key_index: int,
        threshold: u64,
        burst: Seq<Activity>,
    ) -> KeybowView
        decreases burst.len(),
    {
        if burst.len() == 0 {
            self
        } else {
            self.bounced(key_index, threshold, burst.drop_last()).active(
                key_index,
                burst.last().pin_low,
                threshold,
                burst.last().now,
            )
        }
    }

    /// How many times a burst unparks the debounce thread: once for each call of the
    /// callback that finds the key stable.
    pub open spec fn unparks(self, key_index: int, threshold: u64, burst: Seq<Activity>) -> nat
        decreases burst.len(),
    {
        if burst.len() == 0 {
            0
        } else {
            let before = self.bounced(key_index, threshold, burst.drop_last());
            self.unparks(key_index, threshold, burst.drop_last()) + if before.debounce[key_index]
                == DebounceState::Stable {
                1nat
            } else {
                0nat
            }
        }
    }
}

/// However often a key bounces, only its last bounce counts: it decides the position and the
/// time at which the key may be found stable. The debounce thread is unparked just once, at
/// the start. No other key is affected, and until the key has settled no one hears of it.
pub proof fn law_only_the_last_bounce_counts(
    keybow: KeybowView,
    key_index: int,
    threshold: u64,
    burst: Seq<Activity>,
)
    requires
        keybow.valid(),
        0 <= key_index < NUM_KEYS,
        burst.len() > 0,
    ensures
        keybow.bounced(key_index, threshold, burst) == keybow.active(
            key_index,
            burst.last().pin_low,
            threshold,
            burst.last().now,
        ),
        keybow.unparks(key_index, threshold, burst) == if keybow.debounce[key_index]
            == DebounceState::Stable {
            1nat
        } else {
            0nat
        },
        keybow.bounced(key_index, threshold, burst).regs == keybow.regs,
        keybow.bounced(key_index, threshold, burst).positions == keybow.positions,
        forall|other: int|
            0 <= other < NUM_KEYS && other != key_index ==> #[trigger] keybow.bounced(
                key_index,
                threshold,
                burst,
            ).debounce[other] == keybow.debounce[other],
    decreases burst.len(),
{
    reveal_with_fuel(KeybowView::bounced, 2);
    reveal_with_fuel(KeybowView::unparks, 2);
    let earlier = burst.drop_last();
    if earlier.len() > 0 {
        law_only_the_last_bounce_counts(keybow, key_index, threshold, earlier);
        assert(keybow.bounced(key_index, threshold, burst) =~= keybow.active(
            key_index,
            burst.last().pin_low,
            threshold,
            burst.last().now,
        ));
    }
}

/// A key that has bounced and then was quiet settles, in the position of its last bounce.
/// One that has bounced since it was looked at does not, unless the last bounce notes the
/// very time that was noted then.
pub proof fn law_settles_when_quiet(
    keybow: KeybowView,
    key_index: int,
    threshold: u64,
    burst: Seq<Activity>,
    later: Seq<Activity>,
)
    requires
        keybow.valid(),
        0 <= key_index < NUM_KEYS,
        burst.len() > 0,
    ensures
        ({
            let bounced = keybow.bounced(key_index, threshold, burst);
            &&& bounced.debounce[key_index] matches DebounceState::Unstable(seen)
            &&& seen.raw_key_position is Down <==> burst.last().pin_low
            &&& seen.test_stable_time == burst.last().now + threshold
            &&& bounced.has_settled(key_index, seen)
            &&& later.len() > 0 ==> (bounced.bounced(key_index, threshold, later).has_settled(
                key_index,
                seen,
            ) <==> later.last().now == burst.last().now)
        }),
{
    law_only_the_last_bounce_counts(keybow, key_index, threshold, burst);
    let bounced = keybow.bounced(key_index, threshold, burst);
    if later.len() > 0 {
        law_only_the_last_bounce_counts(bounced, key_index, threshold, later);
    }
}

/// A key that is known to be moving stays so, whatever activity there is, until its debounce
/// thread finds that it has settled: the thread never wakes to a stable key.
pub proof fn law_moving_until_settled(
    keybow: KeybowView,
    key_index: int,
    threshold: u64,
    burst: Seq<Activity>,
)
    requires
        keybow.valid(),
        0 <= key_index < NUM_KEYS,
        burst.len() > 0 || keybow.debounce[key_index] is Unstable,
    ensures
        keybow.bounced(key_index, threshold, burst).debounce[key_index] is Unstable,
{
    if burst.len() > 0 {
        law_only_the_last_bounce_counts(keybow, key_index, threshold, burst);
    }
}

/// A key that has settled makes one event for each client that asked for it, with the number
/// after that of the client's event before, and none for the others; the event says where
/// the key is, and shows the position of every key, the others that are held included.
pub proof fn law_one_event_for_each_who_asked(
    keybow: KeybowView,
    key_index: usize,
    key_position: KeyPosition,
    key_instant: Instant,
    key_systime: SystemTime,
    id: u64,
)
    requires
        keybow.valid(),
        key_index < NUM_KEYS,
        keybow.is_open(id),
        keybow.reg(id).event_count < usize::MAX,
    ensures
        ({
            let reg = keybow.reg(id);
            let keybow_after = keybow.settled(
                key_index,
                key_position,
                key_instant,
                key_systime,
            );
            let after = keybow_after.reg(id);
            let asked = if key_position is Down {
                reg.keydown_mask[key_index as int]
            } else {
                reg.keyup_mask[key_index as int]
            };
            if !asked {
                after == reg
            } else {
                &&& after.event_count == reg.event_count + 1
                &&& reg.queue_length > 0 ==> {
                    let event = after.queue.last();
                    &&& after.queue.len() > 0
                    &&& event.key_index == key_index
                    &&& event.key_position == key_position
                    &&& event.up_down_values@[key_index as int] == key_position
                    &&& forall|k: int|
                        0 <= k < NUM_KEYS ==> #[trigger] event.up_down_values@[k]
                            == keybow_after.positions@[k]
                    &&& forall|k: int|
                        0 <= k < NUM_KEYS && k != key_index
                            ==> #[trigger] event.up_down_values@[k] == keybow.positions@[k]
                    &&& event.char == reg.key_mapping[key_index as int]
                    &&& event.event_num == reg.event_count + 1
                    &&& event.event_instant == key_instant
                    &&& event.event_systime == key_systime
                    &&& event.additional_events_still_queued == after.queue.len()
                }
            }
        }),
{
    law_settling_tells_everyone(
        keybow,
        key_index,
        key_position,
        key_instant,
        key_systime,
    );
    assert(open_in(
        keybow.settled(key_index, key_position, key_instant, key_systime).regs,
        id,
    ));
    lemma_reg_valid(keybow, id);
}

} // verus!
