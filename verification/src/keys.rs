//! The keys: debouncing them, and turning what settles into events for those who
//! registered.
//!
//! Two parties debounce a key. The callback hears of every bit of activity on the
//! key's line and notes when the key might have settled. The debounce thread sleeps
//! until then; if there was activity meanwhile it sleeps again, and if not the key
//! has settled.

use crate::event::{position_of, KeyPosition};
use crate::hw_specific::NUM_KEYS;
use crate::keybow::{
    distinct_ids, lemma_slot_of, open_in, reg_in, DebounceState, Keybow, KeybowView, SlotView,
    UnstableState,
};
use crate::location::{KeyLocation, KeybowError};
use std::time::{Instant, SystemTime};
use vstd::array::spec_array_update;
use vstd::prelude::*;

verus! {

/// What the debounce thread is to do once it has slept.
#[derive(Debug, Clone, Copy, PartialEq, Eq, Structural)]
pub enum DebounceStep {
    /// There was activity: sleep again, until the time noted here.
    SleepAgain(UnstableState),
    /// The key has settled: park until there is new activity.
    Settled,
    /// The key was not known to be moving.
    NotBouncing,
}

/// The registrations that are open, in order.
pub open spec fn open_slots(regs: Seq<SlotView>) -> Seq<SlotView> {
    regs.filter(|slot: SlotView| slot.reg is Some)
}

/// A registration once a key has changed; a closed one hears of nothing.
pub open spec fn slot_received(
    slot: SlotView,
    key_index: usize,
    key_position: KeyPosition,
    key_instant: Instant,
    key_systime: SystemTime,
    up_down_values: [KeyPosition; NUM_KEYS],
) -> SlotView {
    SlotView {
        id: slot.id,
        reg: match slot.reg {
            Some(reg) => Some(
                reg.received(
                    key_index,
                    key_position,
                    key_instant,
                    key_systime,
                    up_down_values,
                ),
            ),
            None => None,
        },
    }
}

/// The registrations once a key has changed.
pub open spec fn all_received(
    regs: Seq<SlotView>,
    key_index: usize,
    key_position: KeyPosition,
    key_instant: Instant,
    key_systime: SystemTime,
    up_down_values: [KeyPosition; NUM_KEYS],
) -> Seq<SlotView> {
    Seq::new(
        regs.len(),
        |i: int|
            slot_received(
                regs[i],
                key_index,
                key_position,
                key_instant,
                key_systime,
                up_down_values,
            ),
    )
}

impl KeybowView {
    /// The keypad with this debounce state of this key.
    pub open spec fn with_debounce(self, key_index: int, state: DebounceState) -> KeybowView {
        KeybowView { debounce: self.debounce.update(key_index, state), ..self }
    }

    /// The keypad once there was activity on a key's line.
    pub open spec fn active(
        self,
        key_index: int,
        pin_low: bool,
        threshold: u64,
        now: u64,
    ) -> KeybowView {
        self.with_debounce(
            key_index,
            DebounceState::Unstable(
                UnstableState {
                    raw_key_position: position_of(pin_low),
                    test_stable_time: (now + threshold) as u128,
                },
            ),
        )
    }

    /// Whether a key has settled that was seen in this state before the sleep: it has
    /// the same time noted as then.
    pub open spec fn has_settled(self, key_index: int, seen: UnstableState) -> bool {
        self.debounce[key_index] matches DebounceState::Unstable(now_seen)
            && now_seen.test_stable_time == seen.test_stable_time
    }

    /// The keypad once a key has settled: the key is stable, its position is the
    /// debounced one, every open registration has heard of it, and the closed ones are
    /// forgotten.
    pub open spec fn settled(
        self,
        key_index: usize,
        key_position: KeyPosition,
        key_instant: Instant,
        key_systime: SystemTime,
    ) -> KeybowView {
        let positions = spec_array_update(self.positions, key_index as int, key_position);
        KeybowView {
            debounce: self.debounce.update(key_index as int, DebounceState::Stable),
            positions,
            regs: open_slots(
                all_received(
                    self.regs,
                    key_index,
                    key_position,
                    key_instant,
                    key_systime,
                    positions,
                ),
            ),
            ..self
        }
    }

    /// Whether every registration that asked for this change can still count it.
    pub open spec fn can_count(self, key_index: int, key_position: KeyPosition) -> bool {
        forall|i: int|
            0 <= i < self.regs.len() ==> ((#[trigger] self.regs[i]).reg matches Some(reg)
                ==> (reg.wants(key_index, key_position) ==> reg.event_count < usize::MAX))
    }
}

/// What one more registration adds to the open ones.
proof fn lemma_open_slots_push(regs: Seq<SlotView>, slot: SlotView)
    ensures
        open_slots(regs.push(slot)) == if slot.reg is Some {
            open_slots(regs).push(slot)
        } else {
            open_slots(regs)
        },
{
    regs.lemma_filter_push(slot, |slot: SlotView| slot.reg is Some);
}

/// Forgetting the closed registrations keeps the open ones as they are.
pub proof fn lemma_open_slots(regs: Seq<SlotView>)
    ensures
        distinct_ids(regs) ==> distinct_ids(open_slots(regs)),
        forall|i: int|
            0 <= i < open_slots(regs).len() ==> (#[trigger] open_slots(regs)[i]).reg is Some,
        forall|i: int|
            0 <= i < open_slots(regs).len() ==> regs.contains(#[trigger] open_slots(regs)[i]),
        forall|i: int|
            0 <= i < regs.len() && (#[trigger] regs[i]).reg is Some ==> open_slots(regs).contains(
                regs[i],
            ),
    decreases regs.len(),
{
    let after = open_slots(regs);
    if regs.len() == 0 {
        reveal(Seq::filter);
    } else {
        let older = regs.drop_last();
        let last = regs.last();
        let kept = open_slots(older);
        assert(regs =~= older.push(last));
        lemma_open_slots_push(older, last);
        lemma_open_slots(older);
        assert forall|i: int| 0 <= i < after.len() implies regs.contains(#[trigger] after[i]) by {
            if i < kept.len() {
                let k = choose|k: int| 0 <= k < older.len() && older[k] == kept[i];
                assert(regs[k] == after[i]);
            } else {
                assert(regs[regs.len() - 1] == after[i]);
            }
        }
        assert forall|i: int|
            0 <= i < regs.len() && (#[trigger] regs[i]).reg is Some implies after.contains(
            regs[i],
        ) by {
            if i < older.len() {
                assert(older[i].reg is Some);
                let k = choose|k: int| 0 <= k < kept.len() && kept[k] == older[i];
                assert(after[k] == regs[i]);
            } else {
                assert(after[after.len() - 1] == regs[i]);
            }
        }
        if distinct_ids(regs) {
            assert(distinct_ids(older));
            assert forall|i: int, j: int| 0 <= i < j < after.len() implies (
            #[trigger] after[i]).id != (#[trigger] after[j]).id by {
                if j == kept.len() {
                    let k = choose|k: int| 0 <= k < older.len() && older[k] == kept[i];
                    assert(regs[k].id != regs[regs.len() - 1].id);
                }
            }
        }
    }
}

/// Every open registration has heard of a change, by its own masks and with the positions
/// that all the keys have after it; and none was opened or closed.
pub open spec fn everyone_heard(
    before: KeybowView,
    after: KeybowView,
    key_index: usize,
    key_position: KeyPosition,
    key_instant: Instant,
    key_systime: SystemTime,
) -> bool {
    forall|id: u64|
        #![trigger open_in(after.regs, id)]
        #![trigger reg_in(after.regs, id)]
        {
            &&& open_in(after.regs, id) == open_in(before.regs, id)
            &&& open_in(before.regs, id) ==> after.reg(id) == before.reg(id).received(
                key_index,
                key_position,
                key_instant,
                key_systime,
                after.positions,
            )
        }
}

/// When a key has settled everyone hears of it. What closed registrations there are makes no
/// difference.
pub proof fn law_settling_tells_everyone(
    keybow: KeybowView,
    key_index: usize,
    key_position: KeyPosition,
    key_instant: Instant,
    key_systime: SystemTime,
)
    requires
        keybow.valid(),
    ensures
        everyone_heard(
            keybow,
            keybow.settled(key_index, key_position, key_instant, key_systime),
            key_index,
            key_position,
            key_instant,
            key_systime,
        ),
{
    let after = keybow.settled(key_index, key_position, key_instant, key_systime);
    let heard = all_received(
        keybow.regs,
        key_index,
        key_position,
        key_instant,
        key_systime,
        after.positions,
    );
    assert(distinct_ids(heard));
    lemma_open_slots(heard);
    assert forall|id: u64|
        #![trigger open_in(after.regs, id)]
        #![trigger reg_in(after.regs, id)]
        {
            &&& open_in(after.regs, id) == open_in(keybow.regs, id)
            &&& open_in(keybow.regs, id) ==> after.reg(id) == keybow.reg(id).received(
                key_index,
                key_position,
                key_instant,
                key_systime,
                after.positions,
            )
        } by {
        if open_in(keybow.regs, id) {
            let i = choose|i: int|
                0 <= i < keybow.regs.len() && (#[trigger] keybow.regs[i]).id == id
                    && keybow.regs[i].reg is Some;
            lemma_slot_of(keybow, id, i);
            assert(heard[i].reg is Some);
            let k = choose|k: int| 0 <= k < after.regs.len() && after.regs[k] == heard[i];
            assert(after.regs[k].id == id && after.regs[k].reg is Some);
            lemma_slot_of(after, id, k);
        }
        if open_in(after.regs, id) {
            let k = choose|k: int|
                0 <= k < after.regs.len() && (#[trigger] after.regs[k]).id == id
                    && after.regs[k].reg is Some;
            let i = choose|i: int| 0 <= i < heard.len() && heard[i] == after.regs[k];
            assert(keybow.regs[i].id == id && keybow.regs[i].reg is Some);
        }
    }
}

impl Keybow {
    /// Notes activity on the line of a key, whose pin was then found low or not: the key
    /// might have settled `threshold` nanoseconds from `now`. A pin that is low means
    /// that its key is down. Returns whether this is the start of it, so that the key's
    /// debounce thread must be unparked.
    pub fn debounce_callback(
        &mut self,
        key_index: usize,
        pin_low: bool,
        threshold: u64,
        now: u64,
    ) -> (went_unstable: bool)
        requires
            old(self).wf(),
            key_index < NUM_KEYS,
        ensures
            final(self).wf(),
            final(self)@ == old(self)@.active(key_index as int, pin_low, threshold, now),
            went_unstable == (old(self)@.debounce[key_index as int] == DebounceState::Stable),
            final(self)@.debounce[key_index as int] matches DebounceState::Unstable(noted) && (
            noted.raw_key_position is Down <==> pin_low) && noted.test_stable_time == now
                + threshold,
    {
        let ghost before = self@;
        let key_position = KeyPosition::from(pin_low);
        let went_unstable = match self.key_state_debounce_data[key_index].debounce_state {
            DebounceState::Unstable(_) => false,
            DebounceState::Stable => true,
        };
        self.key_state_debounce_data[key_index].debounce_state = DebounceState::Unstable(
            UnstableState {
                raw_key_position: key_position,
                test_stable_time: now as u128 + threshold as u128,
            },
        );
        assert(self@ =~= before.active(key_index as int, pin_low, threshold, now));
        went_unstable
    }

    /// What the debounce thread of a key sees when it is to sleep: the state of the key,
    /// with the time until which to sleep. `None` where the key is stable.
    pub fn debounce_look(&self, key_index: usize) -> (seen: Option<UnstableState>)
        requires
            self.wf(),
            key_index < NUM_KEYS,
        ensures
            seen == match self@.debounce[key_index as int] {
                DebounceState::Stable => None,
                DebounceState::Unstable(state) => Some(state),
            },
    {
        match self.key_state_debounce_data[key_index].debounce_state {
            DebounceState::Stable => None,
            DebounceState::Unstable(state) => Some(state),
        }
    }

    /// Whether every registration that asked for this change of this key can still count
    /// it.
    pub fn can_count_event(&self, key_index: usize, key_position: KeyPosition) -> (b: bool)
        requires
            self.wf(),
            key_index < NUM_KEYS,
        ensures
            b == self@.can_count(key_index as int, key_position),
    {
        let mut index: usize = 0;
        while index < self.cust_reg.len()
            invariant
                self.wf(),
                key_index < NUM_KEYS,
                index <= self.cust_reg@.len(),
                forall|i: int|
                    0 <= i < index ==> ((#[trigger] self@.regs[i]).reg matches Some(reg) ==> (
                    reg.wants(key_index as int, key_position) ==> reg.event_count < usize::MAX)),
            decreases self.cust_reg@.len() - index,
        {
            if let Some(reg) = &self.cust_reg[index].reg {
                let wanted = match key_position {
                    KeyPosition::Down => reg.keydown_mask[key_index],
                    KeyPosition::Up => reg.keyup_mask[key_index],
                };
                if wanted && reg.event_count == usize::MAX {
                    assert(self@.regs[index as int].reg == Some(reg@));
                    return false;
                }
            }
            index = index + 1;
        }
        true
    }

    /// Tells every open registration that a key has changed.
    fn tell_registrations(
        &mut self,
        key_index: usize,
        key_position: KeyPosition,
        key_instant: Instant,
        key_systime: SystemTime,
    )
        requires
            old(self).wf(),
            key_index < NUM_KEYS,
            old(self)@.can_count(key_index as int, key_position),
        ensures
            final(self).wf(),
            final(self)@ == (KeybowView {
                regs: all_received(
                    old(self)@.regs,
                    key_index,
                    key_position,
                    key_instant,
                    key_systime,
                    old(self)@.positions,
                ),
                ..old(self)@
            }),
    {
        let ghost before = *self;
        let ghost slots = self.cust_reg@;
        let count: usize = self.cust_reg.len();
        let up_down_values = self.current_up_down_values;
        let mut index: usize = 0;
        while index < count
            invariant
                index <= count == slots.len(),
                self.cust_reg@.len() == count,
                key_index < NUM_KEYS,
                slots == before.cust_reg@,
                before.wf(),
                before@.can_count(key_index as int, key_position),
                up_down_values == before@.positions,
                self.led_data == before.led_data,
                self.brightness == before.brightness,
                self.key_state_debounce_data == before.key_state_debounce_data,
                self.current_up_down_values == before.current_up_down_values,
                forall|i: int|
                    index <= i < count ==> (#[trigger] self.cust_reg@[i]) == slots[i],
                forall|i: int| 0 <= i < index ==> (#[trigger] self.cust_reg@[i]).wf(),
                forall|i: int|
                    0 <= i < index ==> (#[trigger] self.cust_reg@[i])@ == slot_received(
                        slots[i]@,
                        key_index,
                        key_position,
                        key_instant,
                        key_systime,
                        up_down_values,
                    ),
            decreases count - index,
        {
            proof {
                assert(before@.regs[index as int] == slots[index as int]@);
                assert(slots[index as int].wf());
            }
            if let Some(reg) = self.cust_reg[index].reg.as_mut() {
                reg.process_one_event(
                    key_index,
                    key_position,
                    key_instant,
                    key_systime,
                    up_down_values,
                );
            }
            index = index + 1;
        }
        proof {
            assert(self@.regs =~= all_received(
                before@.regs,
                key_index,
                key_position,
                key_instant,
                key_systime,
                before@.positions,
            ));
            assert(distinct_ids(self@.regs));
            assert forall|i: int| 0 <= i < self@.regs.len() implies ((
            #[trigger] self@.regs[i]).reg matches Some(reg) ==> reg.valid()) by {
                assert(self.cust_reg@[i].wf());
            }
        }
    }

    /// Forgets the registrations that are closed. The open ones stay as they are, in order.
    fn forget_closed(&mut self)
        requires
            old(self).wf(),
        ensures
            final(self).wf(),
            final(self)@ == (KeybowView { regs: open_slots(old(self)@.regs), ..old(self)@ }),
    {
        let ghost before = self@;
        let ghost mut done: int = 0;
        let mut index: usize = 0;
        proof {
            reveal(Seq::filter);
            assert(before.regs.take(0) =~= Seq::<SlotView>::empty());
            assert(self@.regs.take(0) =~= open_slots(before.regs.take(0)));
            assert(self@.regs.skip(0) =~= before.regs.skip(0));
        }
        while index < self.cust_reg.len()
            invariant
                index <= self.cust_reg@.len(),
                0 <= done <= before.regs.len(),
                self.cust_reg@.len() - index == before.regs.len() - done,
                self@ == (KeybowView { regs: self@.regs, ..before }),
                self@.regs.take(index as int) == open_slots(before.regs.take(done)),
                self@.regs.skip(index as int) == before.regs.skip(done),
                forall|i: int|
                    0 <= i < self.key_state_debounce_data@.len() ==> (
                    #[trigger] self.key_state_debounce_data@[i]).key_index == i,
                forall|i: int|
                    0 <= i < self.cust_reg@.len() ==> (#[trigger] self.cust_reg@[i]).wf(),
            decreases self.cust_reg@.len() - index,
        {
            let ghost regs = self@.regs;
            let ghost slot = regs[index as int];
            proof {
                assert(slot == regs.skip(index as int)[0]);
                assert(slot == before.regs.skip(done)[0]);
                assert(before.regs.take(done + 1) =~= before.regs.take(done).push(slot));
                assert(before.regs.skip(done + 1) =~= before.regs.skip(done).skip(1));
                assert(regs.skip(index as int).skip(1) =~= regs.skip(index + 1));
                lemma_open_slots_push(before.regs.take(done), slot);
            }
            if self.cust_reg[index].reg.is_none() {
                // No one cares about this reg, the client has let go of it.
                let _ = self.cust_reg.remove(index);
                proof {
                    assert(self@.regs =~= regs.remove(index as int));
                    assert(self@.regs.take(index as int) =~= regs.take(index as int));
                    assert(self@.regs.skip(index as int) =~= regs.skip(index + 1));
                }
            } else {
                assert(regs.take(index + 1) =~= regs.take(index as int).push(slot));
                index = index + 1;
            }
            proof {
                done = done + 1;
            }
        }
        proof {
            assert(before.regs.take(done) =~= before.regs);
            assert(self@.regs.take(index as int) =~= self@.regs);
            lemma_open_slots(before.regs);
            assert forall|i: int| 0 <= i < self@.regs.len() implies ((
            #[trigger] self@.regs[i]).reg matches Some(reg) ==> reg.valid()) by {
                let k = choose|k: int|
                    0 <= k < before.regs.len() && before.regs[k] == self@.regs[i];
                assert(before.regs[k].reg == self@.regs[i].reg);
            }
        }
    }

    /// The debounce thread of a key has slept, as told by what it had `seen`. If the time
    /// noted for the key is still the same, nothing happened meanwhile and the key has
    /// settled: it is stable, its position is that seen before the sleep, those who
    /// registered hear of it, and the registrations that their clients have let go of are
    /// forgotten. Otherwise nothing changes, and the thread sleeps again.
    pub fn debounce_wake(
        &mut self,
        key_index: usize,
        seen: UnstableState,
        key_instant: Instant,
        key_systime: SystemTime,
    ) -> (step: DebounceStep)
        requires
            old(self).wf(),
            key_index < NUM_KEYS,
            old(self)@.has_settled(key_index as int, seen) ==> old(self)@.can_count(
                key_index as int,
                seen.raw_key_position,
            ),
        ensures
            final(self).wf(),
            old(self)@.has_settled(key_index as int, seen) <==> step is Settled,
            step is Settled <==> (old(self)@.debounce[key_index as int] matches
                DebounceState::Unstable(noted) && noted.test_stable_time
                == seen.test_stable_time),
            step is Settled ==> final(self)@.positions@ == old(self)@.positions@.update(
                key_index as int,
                seen.raw_key_position,
            ),
            step is Settled ==> {
                &&& final(self)@ == old(self)@.settled(
                    key_index,
                    seen.raw_key_position,
                    key_instant,
                    key_systime,
                )
                &&& everyone_heard(
                    old(self)@,
                    final(self)@,
                    key_index,
                    seen.raw_key_position,
                    key_instant,
                    key_systime,
                )
            },
            !(step is Settled) ==> final(self)@ == old(self)@ && step == match old(
                self,
            )@.debounce[key_index as int] {
                DebounceState::Stable => DebounceStep::NotBouncing,
                DebounceState::Unstable(state) => DebounceStep::SleepAgain(state),
            },
    {
        match self.key_state_debounce_data[key_index].debounce_state {
            DebounceState::Stable => DebounceStep::NotBouncing,
            DebounceState::Unstable(now_seen) => {
                if seen.test_stable_time != now_seen.test_stable_time {
                    // Time changed, still activity, wait for things to stop.
                    return DebounceStep::SleepAgain(now_seen);
                }
                let ghost before = self@;
                let ghost positions = spec_array_update(
                    before.positions,
                    key_index as int,
                    seen.raw_key_position,
                );
                self.key_state_debounce_data[key_index].debounce_state = DebounceState::Stable;
                self.current_up_down_values[key_index] = seen.raw_key_position;
                assert(self.current_up_down_values =~= positions);
                assert(self@ =~= (KeybowView {
                    debounce: before.debounce.update(key_index as int, DebounceState::Stable),
                    positions,
                    ..before
                }));
                self.tell_registrations(
                    key_index,
                    seen.raw_key_position,
                    key_instant,
                    key_systime,
                );
                self.forget_closed();
                assert(self@ =~= before.settled(
                    key_index,
                    seen.raw_key_position,
                    key_instant,
                    key_systime,
                ));
                proof {
                    law_settling_tells_everyone(
                        before,
                        key_index,
                        seen.raw_key_position,
                        key_instant,
                        key_systime,
                    );
                }
                DebounceStep::Settled
            },
        }
    }

    /// Get one current debounced key value. This is not a key event,
    /// but current position; repeated calls on a key that isn't
    /// changing will return the same value repeatedly.
    ///
    /// # Errors
    ///
    /// Will return `KeybowError::BadKeyLocation` error if passed a
    /// non-existent `key_num`.
    pub fn get_key(&self, key_num: usize) -> (r: Result<KeyPosition, KeybowError>)
        ensures
            key_num < NUM_KEYS ==> r == Ok::<KeyPosition, KeybowError>(
                self@.positions@[key_num as int],
            ),
            key_num >= NUM_KEYS ==> r == Err::<KeyPosition, KeybowError>(
                KeybowError::BadKeyLocation { bad_location: KeyLocation::Index(key_num) },
            ),
    {
        if key_num >= NUM_KEYS {
            Err(KeybowError::BadKeyLocation { bad_location: KeyLocation::Index(key_num) })
        } else {
            Ok(self.current_up_down_values[key_num])
        }
    }

    /// Returns array of `KeyPosition`, one for each key.
    pub fn get_keys(&self) -> (positions: [KeyPosition; NUM_KEYS])
        ensures
            positions == self@.positions,
    {
        self.current_up_down_values
    }
}

} // verus!
