//! A client's hold on its registration: registering for key events, reading them,
//! waiting for them, and letting go.
//!
//! Clients share the keypad, so the registrations live in it and a `CustReg` names
//! one. Every call takes the keypad that the registration belongs to.

use crate::event::KeyEvent;
use crate::hw_specific::NUM_KEYS;
use crate::keybow::{
    distinct_ids, lemma_other_slot, lemma_slot_of, open_in, others_same, reg_became, reg_in, Keybow,
    KeybowView, RegSlot, SlotView,
};
use crate::queue::{law_peek_shows_what_is_read_next, lemma_full_mask, matching};
use crate::registration::{CustRegInner, RegView};
use crate::wake::{sync_received, sync_source, LONGEST_WAIT};
use vstd::prelude::*;

verus! {

/// Struct for getting debounced key events. To obtain one of these
/// call `Keybow::register_events()`.
#[derive(Debug)]
pub struct CustReg {
    pub(crate) reg_id: u64,
    /// How long reading events one after the other waits for each, in nanoseconds.
    pub(crate) iter_timeout: u128,
    pub(crate) queue_capacity: usize,
}

/// What a waiting client is to do next.
#[derive(Debug)]
pub enum WaitStep<T> {
    /// Here is what it waited for.
    Ready(T),
    /// Its time is up.
    TimedOut,
    /// Block until it is woken, at most for so many nanoseconds, and look again.
    Block { nanos: u128 },
}

/// Whether a registration, open or closed, has this id.
pub open spec fn id_used(regs: Seq<SlotView>, id: u64) -> bool {
    exists|i: int| 0 <= i < regs.len() && (#[trigger] regs[i]).id == id
}

/// The moment at which a wait of `timeout` nanoseconds that begins `now` ends.
pub open spec fn deadline_after(now: u64, timeout: u128) -> int {
    now + if timeout > LONGEST_WAIT {
        LONGEST_WAIT
    } else {
        timeout
    }
}

/// What a client is to do that has not found what it waits for.
pub open spec fn keep_waiting<T>(now: u64, deadline: u128) -> WaitStep<T> {
    if deadline < now {
        WaitStep::TimedOut
    } else {
        WaitStep::Block { nanos: (deadline - now) as u128 }
    }
}

impl CustReg {
    /// Which registration this is.
    pub open(crate) spec fn id(self) -> u64 {
        self.reg_id
    }

    /// How long reading events one after the other waits for each.
    pub open(crate) spec fn timeout(self) -> u128 {
        self.iter_timeout
    }

    /// How many events the queue was asked to hold.
    pub open(crate) spec fn capacity(self) -> usize {
        self.queue_capacity
    }

    /// Whether this is an open registration of this keypad.
    pub open spec fn is_of(self, keybow: KeybowView) -> bool {
        keybow.is_open(self.id())
    }

    /// Get next key event, whatever it be.
    pub fn get_next_key_event(&self, keybow: &mut Keybow) -> (r: Option<KeyEvent>)
        requires
            old(keybow).wf(),
            self.is_of(old(keybow)@),
        ensures
            final(keybow).wf(),
            ({
                let reg = old(keybow)@.reg(self.id());
                if reg.queue.len() == 0 {
                    r is None && final(keybow)@ == old(keybow)@
                } else {
                    r == Some(reg.queue[0])
                        && reg_became(
                            old(keybow)@,
                            final(keybow)@,
                            self.id(),
                            reg.with_queue(reg.queue.skip(1)),
                        )
                }
            }),
    {
        keybow.reg_mut(self.reg_id).get_next_key_event()
    }

    /// Get next key event that matches supplied mask, or `None`. Any
    /// older key events in the queue that do not match the mask will
    /// remain in the queue.
    pub fn get_next_key_event_masked(&self, keybow: &mut Keybow, mask: [bool; NUM_KEYS]) -> (r:
        Option<KeyEvent>)
        requires
            old(keybow).wf(),
            self.is_of(old(keybow)@),
        ensures
            final(keybow).wf(),
            ({
                let reg = old(keybow)@.reg(self.id());
                if reg.has_matching(mask@, 1) {
                    r == Some(matching(reg.queue, mask@)[0])
                        && reg_became(
                            old(keybow)@,
                            final(keybow)@,
                            self.id(),
                            reg.taken(mask@, 1),
                        )
                } else {
                    r is None && final(keybow)@ == old(keybow)@
                }
            }),
    {
        match self.get_next_n_events_masked(keybow, mask, 1) {
            Some(events) => Some(events[0]),
            None => None,
        }
    }

    /// Get a copy of the first `requested_number` queued events,
    /// leaving them in the queue, all unchanged.
    ///
    /// If there are not that many events queued, return a copy of as
    /// many as there are. If there are none return `None`.
    pub fn peek_next_n_events(&self, keybow: &Keybow, requested_number: usize) -> (r: Option<
        Vec<KeyEvent>,
    >)
        requires
            keybow.wf(),
            self.is_of(keybow@),
        ensures
            ({
                let queue = keybow@.reg(self.id()).queue;
                if requested_number == 0 || queue.len() == 0 {
                    r is None
                } else if requested_number <= queue.len() {
                    r matches Some(events) && events@ == queue.take(requested_number as int)
                } else {
                    r matches Some(events) && events@ == queue
                }
            }),
    {
        keybow.reg_ref(self.reg_id).peek_next_n_events(requested_number)
    }

    /// Return `requested_number` of matching events in an `Option`,
    /// or if there aren't that many, return `None` (leaving event
    /// queue unchanged).
    pub fn get_next_n_events_masked(
        &self,
        keybow: &mut Keybow,
        mask: [bool; NUM_KEYS],
        requested_number: usize,
    ) -> (r: Option<Vec<KeyEvent>>)
        requires
            old(keybow).wf(),
            self.is_of(old(keybow)@),
        ensures
            final(keybow).wf(),
            ({
                let reg = old(keybow)@.reg(self.id());
                let n = requested_number as nat;
                if reg.has_matching(mask@, n) {
                    &&& r matches Some(events)
                    &&& events@ == matching(reg.queue, mask@).take(n as int)
                    &&& reg_became(old(keybow)@, final(keybow)@, self.id(), reg.taken(mask@, n))
                    &&& events@.len() == n
                    &&& forall|i: int|
                        0 <= i < events@.len() ==> mask@[(#[trigger] events@[i]).key_index as int]
                    &&& forall|k: int|
                        0 <= k < reg.queue.len() && !mask@[(
                        #[trigger] reg.queue[k]).key_index as int] ==> final(keybow)@.reg(
                            self.id(),
                        ).queue.contains(reg.queue[k])
                } else {
                    r is None && final(keybow)@ == old(keybow)@
                }
            }),
    {
        keybow.reg_mut(self.reg_id).get_next_n_events_masked(mask, requested_number)
    }

    /// The moment at which a wait of `timeout` nanoseconds that begins `now` ends. It is
    /// noted once, when the wait begins. Very long waits are cut to a billion years.
    pub fn wait_deadline(now: u64, timeout: u128) -> (deadline: u128)
        ensures
            deadline == deadline_after(now, timeout),
            timeout <= LONGEST_WAIT ==> deadline == now + timeout,
            timeout > LONGEST_WAIT ==> deadline == now + LONGEST_WAIT,
    {
        if timeout > LONGEST_WAIT {
            now as u128 + LONGEST_WAIT
        } else {
            now as u128 + timeout
        }
    }

    /// The moment at which reading the next event, as one of a series, gives up.
    pub fn iter_deadline(&self, now: u64) -> (deadline: u128)
        ensures
            deadline == deadline_after(now, self.timeout()),
            self.timeout() <= LONGEST_WAIT ==> deadline == now + self.timeout(),
            self.timeout() > LONGEST_WAIT ==> deadline == now + LONGEST_WAIT,
    {
        CustReg::wait_deadline(now, self.iter_timeout)
    }

    /// One look of a synchronous wait for next key event, whatever it be.
    pub fn wait_next_key_event(&self, keybow: &mut Keybow, now: u64, deadline: u128) -> (step:
        WaitStep<KeyEvent>)
        requires
            old(keybow).wf(),
            self.is_of(old(keybow)@),
        ensures
            final(keybow).wf(),
            ({
                let reg = old(keybow)@.reg(self.id());
                if reg.queue.len() > 0 {
                    step == WaitStep::Ready(reg.queue[0])
                        && reg_became(
                            old(keybow)@,
                            final(keybow)@,
                            self.id(),
                            reg.with_queue(reg.queue.skip(1)),
                        )
                } else {
                    step == keep_waiting::<KeyEvent>(now, deadline) && final(keybow)@ == old(
                        keybow,
                    )@
                }
            }),
    {
        let mask = [true;NUM_KEYS];
        proof {
            let reg = keybow@.reg(self.id());
            lemma_reg_valid(keybow@, self.id());
            lemma_full_mask(reg.queue, mask@);
            if reg.queue.len() > 0 {
                law_peek_shows_what_is_read_next(reg.queue, mask@, 1);
            }
        }
        self.wait_next_key_event_masked(keybow, mask, now, deadline)
    }

    /// One look of a synchronous wait for one event.
    pub fn wait_next_key_event_masked(
        &self,
        keybow: &mut Keybow,
        mask: [bool; NUM_KEYS],
        now: u64,
        deadline: u128,
    ) -> (step: WaitStep<KeyEvent>)
        requires
            old(keybow).wf(),
            self.is_of(old(keybow)@),
        ensures
            final(keybow).wf(),
            ({
                let reg = old(keybow)@.reg(self.id());
                if reg.has_matching(mask@, 1) {
                    step == WaitStep::Ready(matching(reg.queue, mask@)[0])
                        && reg_became(
                            old(keybow)@,
                            final(keybow)@,
                            self.id(),
                            reg.taken(mask@, 1),
                        )
                } else {
                    step == keep_waiting::<KeyEvent>(now, deadline) && final(keybow)@ == old(
                        keybow,
                    )@
                }
            }),
    {
        match self.wait_next_n_key_events_masked(keybow, mask, 1, now, deadline) {
            WaitStep::Ready(events) => WaitStep::Ready(events[0]),
            WaitStep::TimedOut => WaitStep::TimedOut,
            WaitStep::Block { nanos } => WaitStep::Block { nanos },
        }
    }

    /// One look of a synchronous wait for events, at a moment `now` of a wait that ends
    /// at `deadline`.
    ///
    /// Where the events are not there and there is time left, the client blocks until it
    /// is woken, for the time that is left, and looks again. An event that is queued
    /// between the look and the block leaves its number in the channel, for whoever blocks
    /// first.
    pub fn wait_next_n_key_events_masked(
        &self,
        keybow: &mut Keybow,
        mask: [bool; NUM_KEYS],
        requested_number: usize,
        now: u64,
        deadline: u128,
    ) -> (step: WaitStep<Vec<KeyEvent>>)
        requires
            old(keybow).wf(),
            self.is_of(old(keybow)@),
        ensures
            final(keybow).wf(),
            ({
                let reg = old(keybow)@.reg(self.id());
                let n = requested_number as nat;
                if reg.has_matching(mask@, n) {
                    &&& step matches WaitStep::Ready(events) && events@ == matching(
                        reg.queue,
                        mask@,
                    ).take(n as int)
                    &&& reg_became(old(keybow)@, final(keybow)@, self.id(), reg.taken(mask@, n))
                } else {
                    step == keep_waiting::<Vec<KeyEvent>>(now, deadline) && final(keybow)@
                        == old(keybow)@
                }
            }),
    {
        match self.get_next_n_events_masked(keybow, mask, requested_number) {
            Some(events) => WaitStep::Ready(events),
            None => if deadline < now as u128 {
                WaitStep::TimedOut
            } else {
                WaitStep::Block { nanos: deadline - now as u128 }
            },
        }
    }

    /// Get character of next event, whatever it be, if any.
    pub fn get_next_char(&self, keybow: &mut Keybow) -> (r: Option<char>)
        requires
            old(keybow).wf(),
            self.is_of(old(keybow)@),
        ensures
            final(keybow).wf(),
            ({
                let reg = old(keybow)@.reg(self.id());
                if reg.queue.len() == 0 {
                    r is None && final(keybow)@ == old(keybow)@
                } else {
                    r == Some(reg.queue[0].char)
                        && reg_became(
                            old(keybow)@,
                            final(keybow)@,
                            self.id(),
                            reg.with_queue(reg.queue.skip(1)),
                        )
                }
            }),
    {
        match self.get_next_key_event(keybow) {
            Some(event) => Some(event.char),
            None => None,
        }
    }

    /// One look of a synchronous wait for next event, for its character, whatever it be.
    pub fn wait_next_char(&self, keybow: &mut Keybow, now: u64, deadline: u128) -> (step: WaitStep<
        char,
    >)
        requires
            old(keybow).wf(),
            self.is_of(old(keybow)@),
        ensures
            final(keybow).wf(),
            ({
                let reg = old(keybow)@.reg(self.id());
                if reg.queue.len() > 0 {
                    step == WaitStep::Ready(reg.queue[0].char)
                        && reg_became(
                            old(keybow)@,
                            final(keybow)@,
                            self.id(),
                            reg.with_queue(reg.queue.skip(1)),
                        )
                } else {
                    step == keep_waiting::<char>(now, deadline) && final(keybow)@ == old(keybow)@
                }
            }),
    {
        match self.wait_next_key_event(keybow, now, deadline) {
            WaitStep::Ready(event) => WaitStep::Ready(event.char),
            WaitStep::TimedOut => WaitStep::TimedOut,
            WaitStep::Block { nanos } => WaitStep::Block { nanos },
        }
    }

    /// Throw away all queued key events for this `CustReg`.
    pub fn clear_queue(&self, keybow: &mut Keybow)
        requires
            old(keybow).wf(),
            self.is_of(old(keybow)@),
        ensures
            final(keybow).wf(),
            reg_became(
                old(keybow)@,
                final(keybow)@,
                self.id(),
                old(keybow)@.reg(self.id()).with_queue(Seq::empty()),
            ),
    {
        keybow.reg_mut(self.reg_id).clear_queue()
    }

    /// Returns number of events currently queued for this `CustReg`, as the bounds of
    /// what reading them would give.
    pub fn size_hint(&self, keybow: &Keybow) -> (r: (usize, Option<usize>))
        requires
            keybow.wf(),
            self.is_of(keybow@),
        ensures
            r.0 == keybow@.reg(self.id()).queue.len(),
            r.1 == Some(r.0),
    {
        let queued: usize = keybow.reg_ref(self.reg_id).queued();
        (queued, Some(queued))
    }

    /// A receiving end of the channel on which the client is woken.
    pub fn sync_receiver(&self, keybow: &Keybow) -> (receiver: crossbeam_channel::Receiver<usize>)
        requires
            keybow.wf(),
            self.is_of(keybow@),
        ensures
            sync_source(receiver) == keybow@.reg(self.id()).sync_channel,
            sync_received(receiver) == Seq::<usize>::empty(),
    {
        keybow.reg_ref(self.reg_id).sync_receiver()
    }

    /// Lets go of the registration. It hears of no more events, and the keypad forgets it
    /// when next a key has changed.
    pub fn close(self, keybow: &mut Keybow)
        requires
            old(keybow).wf(),
            self.is_of(old(keybow)@),
        ensures
            final(keybow).wf(),
            final(keybow)@ == old(keybow)@.closed(self.id()),
            !final(keybow)@.is_open(self.id()),
            others_same(old(keybow)@, final(keybow)@, self.id()),
    {
        let ghost before = keybow@;
        let i: usize = keybow.slot(self.reg_id);
        keybow.cust_reg[i].reg = None;
        proof {
            assert(keybow@ =~= before.closed(self.id()));
            assert(distinct_ids(keybow@.regs));
            assert forall|other: u64|
                #![trigger open_in(keybow@.regs, other)]
                #![trigger reg_in(keybow@.regs, other)]
                other != self.id() implies {
                &&& open_in(keybow@.regs, other) == open_in(before.regs, other)
                &&& open_in(before.regs, other) ==> keybow@.reg(other) == before.reg(other)
            } by {
                lemma_other_slot(before, keybow@, i as int, other);
            }
        }
    }
}

/// An open registration of a valid keypad is valid.
pub proof fn lemma_reg_valid(keybow: KeybowView, id: u64)
    requires
        keybow.valid(),
        keybow.is_open(id),
    ensures
        keybow.reg(id).valid(),
{
    let i = choose|i: int|
        0 <= i < keybow.regs.len() && (#[trigger] keybow.regs[i]).id == id
            && keybow.regs[i].reg is Some;
    lemma_slot_of(keybow, id, i);
}

impl Keybow {
    /// The open registration of this id.
    pub(crate) fn reg_ref(&self, id: u64) -> (reg: &CustRegInner)
        requires
            self.wf(),
            self@.is_open(id),
        ensures
            reg.wf(),
            reg@ == self@.reg(id),
    {
        let i: usize = self.slot(id);
        self.cust_reg[i].reg.as_ref().unwrap()
    }

    /// Whether a registration, open or closed, has this id.
    fn is_id_used(&self, id: u64) -> (used: bool)
        ensures
            used == id_used(self@.regs, id),
    {
        let mut index: usize = 0;
        while index < self.cust_reg.len()
            invariant
                index <= self.cust_reg@.len(),
                forall|i: int| 0 <= i < index ==> (#[trigger] self@.regs[i]).id != id,
            decreases self.cust_reg@.len() - index,
        {
            if self.cust_reg[index].id == id {
                assert(self@.regs[index as int].id == id);
                return true;
            }
            index = index + 1;
        }
        false
    }

    /// An id that no registration has.
    fn unused_id(&self) -> (id: u64)
        ensures
            !id_used(self@.regs, id),
    {
        let slots: usize = self.cust_reg.len();
        let mut id: u64 = 0;
        while self.is_id_used(id)
            invariant
                slots == self@.regs.len(),
                id <= slots,
                forall|used: u64| used < id ==> #[trigger] id_used(self@.regs, used),
            decreases slots - id,
        {
            proof {
                lemma_used_ids(self@.regs, (id + 1) as nat);
            }
            id = id + 1;
        }
        id
    }

    /// Used by client code to register for specific key events.
    ///
    /// # Arguments
    ///
    /// * `keydown_mask` Array of bool, one for each key, true if you
    ///    want down events.
    /// * `keyup_mask` Array of bool, one for each key, true if you
    ///    want up events.
    /// * `queue_length` Number of key events to queue. If queue
    ///    overflows oldest events will be discarded.
    /// * `key_mapping` Array of `char`, each the character that will
    ///    be returned as the character for the corresponding key.
    /// * `iter_timeout` Timeout used when reading key events one after the
    ///    other, in nanoseconds.
    pub fn register_events_blocking(
        &mut self,
        keydown_mask: [bool; NUM_KEYS],
        keyup_mask: [bool; NUM_KEYS],
        queue_length: usize,
        key_mapping: [char; NUM_KEYS],
        iter_timeout: u128,
    ) -> (cust_reg: CustReg)
        requires
            old(self).wf(),
        ensures
            final(self).wf(),
            cust_reg.is_of(final(self)@),
            others_same(old(self)@, final(self)@, cust_reg.id()),
            cust_reg.timeout() == iter_timeout,
            cust_reg.capacity() == queue_length,
            !id_used(old(self)@.regs, cust_reg.id()),
            !old(self)@.is_open(cust_reg.id()),
            ({
                let reg = final(self)@.reg(cust_reg.id());
                &&& reg == RegView::fresh(
                    keydown_mask@,
                    keyup_mask@,
                    queue_length as nat,
                    key_mapping@,
                    reg.sync_channel,
                    reg.async_channel,
                )
                &&& final(self)@ == old(self)@.opened(cust_reg.id(), reg)
            }),
    {
        let ghost before = self@;
        let reg_id: u64 = self.unused_id();
        let register = CustRegInner::new(keydown_mask, keyup_mask, queue_length, key_mapping);
        let ghost reg = register@;
        self.cust_reg.push(RegSlot { id: reg_id, reg: Some(register) });
        proof {
            let last = before.regs.len() as int;
            assert(self@ =~= before.opened(reg_id, reg));
            assert(distinct_ids(self@.regs));
            assert(self@.regs[last].id == reg_id && self@.regs[last].reg == Some(reg));
            lemma_slot_of(self@, reg_id, last);
            assert forall|other: u64|
                #![trigger open_in(self@.regs, other)]
                #![trigger reg_in(self@.regs, other)]
                other != reg_id implies {
                &&& open_in(self@.regs, other) == open_in(before.regs, other)
                &&& open_in(before.regs, other) ==> self@.reg(other) == before.reg(other)
            } by {
                lemma_other_slot(before, self@, last, other);
            }
        }
        CustReg { reg_id, iter_timeout, queue_capacity: queue_length }
    }

    /// The same as `register_events_blocking()`.
    pub fn register_events(
        &mut self,
        keydown_mask: [bool; NUM_KEYS],
        keyup_mask: [bool; NUM_KEYS],
        queue_length: usize,
        key_mapping: [char; NUM_KEYS],
        iter_timeout: u128,
    ) -> (cust_reg: CustReg)
        requires
            old(self).wf(),
        ensures
            final(self).wf(),
            cust_reg.is_of(final(self)@),
            others_same(old(self)@, final(self)@, cust_reg.id()),
            cust_reg.timeout() == iter_timeout,
            cust_reg.capacity() == queue_length,
            !id_used(old(self)@.regs, cust_reg.id()),
            !old(self)@.is_open(cust_reg.id()),
            ({
                let reg = final(self)@.reg(cust_reg.id());
                &&& reg == RegView::fresh(
                    keydown_mask@,
                    keyup_mask@,
                    queue_length as nat,
                    key_mapping@,
                    reg.sync_channel,
                    reg.async_channel,
                )
                &&& final(self)@ == old(self)@.opened(cust_reg.id(), reg)
            }),
    {
        self.register_events_blocking(
            keydown_mask,
            keyup_mask,
            queue_length,
            key_mapping,
            iter_timeout,
        )
    }
}

/// There are at least as many registrations as there are ids in use.
proof fn lemma_used_ids(regs: Seq<SlotView>, n: nat)
    requires
        forall|used: u64| used < n ==> #[trigger] id_used(regs, used),
        n <= u64::MAX + 1,
    ensures
        n <= regs.len(),
{
    let ids = regs.map_values(|slot: SlotView| slot.id as int);
    let range = vstd::set_lib::set_int_range(0, n as int);
    assert forall|k: int| range.contains(k) implies ids.to_set().contains(k) by {
        let used = k as u64;
        assert(id_used(regs, used));
        let i = choose|i: int| 0 <= i < regs.len() && (#[trigger] regs[i]).id == used;
        assert(ids[i] == k);
    }
    vstd::set_lib::lemma_int_range(0, n as int);
    ids.lemma_cardinality_of_set();
    vstd::seq_lib::seq_to_set_is_finite(ids);
    vstd::set_lib::lemma_len_subset(range, ids.to_set());
}

} // verus!
