//! The hold of an async client on its registration.
//!
//! Heavily dependent on the synchronous code to do the real work. An async client
//! looks at its queue; where that does not hold what it waits for it awaits a change
//! of its watch channel, and looks again.

use crate::cust_reg::{id_used, lemma_reg_valid, CustReg};
use crate::event::KeyEvent;
use crate::hw_specific::NUM_KEYS;
use crate::keybow::{others_same, reg_became, Keybow, KeybowView};
use crate::queue::{law_peek_shows_what_is_read_next, lemma_full_mask, matching};
use crate::registration::RegView;
use crate::wake::{async_seen, async_source};
use vstd::prelude::*;

verus! {

/// Struct for getting debounced key events in async code. To obtain one of these
/// call `Keybow::register_events_async()`.
#[derive(Debug)]
pub struct CustRegAsync {
    pub(crate) real_cust_reg: CustReg,
    pub(crate) iter_timeout: u128,
    pub(crate) queue_capacity: usize,
}

/// What a waiting async client is to do next.
#[derive(Debug)]
pub enum AsyncStep<T> {
    /// Here is what it waited for.
    Ready(T),
    /// Await a change of its watch channel, and look again.
    Await,
}

impl CustRegAsync {
    /// Which registration this is.
    pub open(crate) spec fn id(self) -> u64 {
        self.real_cust_reg.id()
    }

    /// How long reading events one after the other waits for each.
    pub open(crate) spec fn timeout(self) -> u128 {
        self.iter_timeout
    }

    /// How many events the queue was asked to hold.
    pub open(crate) spec fn capacity(self) -> usize {
        self.queue_capacity
    }

    /// Whether this is an open registration of this keypad.
    pub open spec fn is_of(self, keybow: KeybowView) -> bool {
        keybow.is_open(self.id())
    }

    /// Get next key event, whatever it be.
    pub fn get_next_key_event(&self, keybow: &mut Keybow) -> (r: Option<KeyEvent>)
        requires
            old(keybow).wf(),
            self.is_of(old(keybow)@),
        ensures
            final(keybow).wf(),
            ({
                let reg = old(keybow)@.reg(self.id());
                if reg.queue.len() == 0 {
                    r is None && final(keybow)@ == old(keybow)@
                } else {
                    r == Some(reg.queue[0])
                        && reg_became(
                            old(keybow)@,
                            final(keybow)@,
                            self.id(),
                            reg.with_queue(reg.queue.skip(1)),
                        )
                }
            }),
    {
        self.real_cust_reg.get_next_key_event(keybow)
    }

    /// Get next key event that matches supplied mask, or `None`. Any
    /// older key events in the queue that do not match the mask will
    /// remain in the queue.
    pub fn get_next_key_event_masked(&self, keybow: &mut Keybow, mask: [bool; NUM_KEYS]) -> (r:
        Option<KeyEvent>)
        requires
            old(keybow).wf(),
            self.is_of(old(keybow)@),
        ensures
            final(keybow).wf(),
            ({
                let reg = old(keybow)@.reg(self.id());
                if reg.has_matching(mask@, 1) {
                    r == Some(matching(reg.queue, mask@)[0])
                        && reg_became(
                            old(keybow)@,
                            final(keybow)@,
                            self.id(),
                            reg.taken(mask@, 1),
                        )
                } else {
                    r is None && final(keybow)@ == old(keybow)@
                }
            }),
    {
        self.real_cust_reg.get_next_key_event_masked(keybow, mask)
    }

    /// Get a copy of the first `requested_number` queued events,
    /// leaving them in the queue, all unchanged.
    ///
    /// If there are not that many events queued, return a copy of as
    /// many as there are. If there are none return `None`.
    pub fn peek_next_n_events(&self, keybow: &Keybow, requested_number: usize) -> (r: Option<
        Vec<KeyEvent>,
    >)
        requires
            keybow.wf(),
            self.is_of(keybow@),
        ensures
            ({
                let queue = keybow@.reg(self.id()).queue;
                if requested_number == 0 || queue.len() == 0 {
                    r is None
                } else if requested_number <= queue.len() {
                    r matches Some(events) && events@ == queue.take(requested_number as int)
                } else {
                    r matches Some(events) && events@ == queue
                }
            }),
    {
        self.real_cust_reg.peek_next_n_events(keybow, requested_number)
    }

    /// Return `requested_number` of matching events in an `Option`,
    /// or if there aren't that many, return `None` (leaving event
    /// queue unchanged).
    pub fn get_next_n_events_masked(
        &self,
        keybow: &mut Keybow,
        mask: [bool; NUM_KEYS],
        requested_number: usize,
    ) -> (r: Option<Vec<KeyEvent>>)
        requires
            old(keybow).wf(),
            self.is_of(old(keybow)@),
        ensures
            final(keybow).wf(),
            ({
                let reg = old(keybow)@.reg(self.id());
                let n = requested_number as nat;
                if reg.has_matching(mask@, n) {
                    &&& r matches Some(events)
                    &&& events@ == matching(reg.queue, mask@).take(n as int)
                    &&& reg_became(old(keybow)@, final(keybow)@, self.id(), reg.taken(mask@, n))
                    &&& events@.len() == n
                    &&& forall|i: int|
                        0 <= i < events@.len() ==> mask@[(#[trigger] events@[i]).key_index as int]
                    &&& forall|k: int|
                        0 <= k < reg.queue.len() && !mask@[(
                        #[trigger] reg.queue[k]).key_index as int] ==> final(keybow)@.reg(
                            self.id(),
                        ).queue.contains(reg.queue[k])
                } else {
                    r is None && final(keybow)@ == old(keybow)@
                }
            }),
    {
        self.real_cust_reg.get_next_n_events_masked(keybow, mask, requested_number)
    }

    /// Begins a wait: a receiving end of the client's watch channel, to which what was
    /// sent so far is no news. It is made before the first look at the queue, so that no
    /// event which comes after that look is missed.
    pub fn begin_wait(&self, keybow: &Keybow) -> (receiver: tokio::sync::watch::Receiver<()>)
        requires
            keybow.wf(),
            self.is_of(keybow@),
        ensures
            async_source(receiver) == keybow@.reg(self.id()).async_channel,
            async_seen(receiver) == keybow@.reg(self.id()).wakes.async_count,
    {
        keybow.reg_ref(self.real_cust_reg.reg_id).begin_wait()
    }

    /// One look of a wait for next key event, whatever it be.
    pub fn wait_next_key_event(&self, keybow: &mut Keybow) -> (step: AsyncStep<KeyEvent>)
        requires
            old(keybow).wf(),
            self.is_of(old(keybow)@),
        ensures
            final(keybow).wf(),
            ({
                let reg = old(keybow)@.reg(self.id());
                if reg.queue.len() == 0 {
                    step is Await && final(keybow)@ == old(keybow)@
                } else {
                    step == AsyncStep::Ready(reg.queue[0])
                        && reg_became(
                            old(keybow)@,
                            final(keybow)@,
                            self.id(),
                            reg.with_queue(reg.queue.skip(1)),
                        )
                }
            }),
    {
        let mask = [true;NUM_KEYS];
        proof {
            let reg = keybow@.reg(self.id());
            lemma_reg_valid(keybow@, self.id());
            lemma_full_mask(reg.queue, mask@);
            if reg.queue.len() > 0 {
                law_peek_shows_what_is_read_next(reg.queue, mask@, 1);
            }
        }
        self.wait_next_key_event_masked(keybow, mask)
    }

    /// One look of a wait for one event.
    pub fn wait_next_key_event_masked(&self, keybow: &mut Keybow, mask: [bool; NUM_KEYS]) -> (step:
        AsyncStep<KeyEvent>)
        requires
            old(keybow).wf(),
            self.is_of(old(keybow)@),
        ensures
            final(keybow).wf(),
            ({
                let reg = old(keybow)@.reg(self.id());
                if reg.has_matching(mask@, 1) {
                    step == AsyncStep::Ready(matching(reg.queue, mask@)[0])
                        && reg_became(
                            old(keybow)@,
                            final(keybow)@,
                            self.id(),
                            reg.taken(mask@, 1),
                        )
                } else {
                    step is Await && final(keybow)@ == old(keybow)@
                }
            }),
    {
        match self.wait_next_n_key_events_masked(keybow, mask, 1) {
            AsyncStep::Ready(events) => AsyncStep::Ready(events[0]),
            AsyncStep::Await => AsyncStep::Await,
        }
    }

    /// One look of a wait for exactly `requested_number` events.
    pub fn wait_next_n_key_events_masked(
        &self,
        keybow: &mut Keybow,
        mask: [bool; NUM_KEYS],
        requested_number: usize,
    ) -> (step: AsyncStep<Vec<KeyEvent>>)
        requires
            old(keybow).wf(),
            self.is_of(old(keybow)@),
        ensures
            final(keybow).wf(),
            ({
                let reg = old(keybow)@.reg(self.id());
                let n = requested_number as nat;
                if reg.has_matching(mask@, n) {
                    &&& step matches AsyncStep::Ready(events) && events@ == matching(
                        reg.queue,
                        mask@,
                    ).take(n as int)
                    &&& reg_became(old(keybow)@, final(keybow)@, self.id(), reg.taken(mask@, n))
                } else {
                    step is Await && final(keybow)@ == old(keybow)@
                }
            }),
    {
        match self.get_next_n_events_masked(keybow, mask, requested_number) {
            Some(events) => AsyncStep::Ready(events),
            None => AsyncStep::Await,
        }
    }

    /// Get character of next event, whatever it be, if any.
    pub fn get_next_char(&self, keybow: &mut Keybow) -> (r: Option<char>)
        requires
            old(keybow).wf(),
            self.is_of(old(keybow)@),
        ensures
            final(keybow).wf(),
            ({
                let reg = old(keybow)@.reg(self.id());
                if reg.queue.len() == 0 {
                    r is None && final(keybow)@ == old(keybow)@
                } else {
                    r == Some(reg.queue[0].char)
                        && reg_became(
                            old(keybow)@,
                            final(keybow)@,
                            self.id(),
                            reg.with_queue(reg.queue.skip(1)),
                        )
                }
            }),
    {
        self.real_cust_reg.get_next_char(keybow)
    }

    /// One look of a wait for next event, for its character, whatever it be.
    pub fn wait_next_char(&self, keybow: &mut Keybow) -> (step: AsyncStep<char>)
        requires
            old(keybow).wf(),
            self.is_of(old(keybow)@),
        ensures
            final(keybow).wf(),
            ({
                let reg = old(keybow)@.reg(self.id());
                if reg.queue.len() == 0 {
                    step is Await && final(keybow)@ == old(keybow)@
                } else {
                    step == AsyncStep::Ready(reg.queue[0].char)
                        && reg_became(
                            old(keybow)@,
                            final(keybow)@,
                            self.id(),
                            reg.with_queue(reg.queue.skip(1)),
                        )
                }
            }),
    {
        match self.wait_next_key_event(keybow) {
            AsyncStep::Ready(event) => AsyncStep::Ready(event.char),
            AsyncStep::Await => AsyncStep::Await,
        }
    }

    /// Throw away all queued key events for this `CustRegAsync`.
    pub fn clear_queue(&self, keybow: &mut Keybow)
        requires
            old(keybow).wf(),
            self.is_of(old(keybow)@),
        ensures
            final(keybow).wf(),
            reg_became(
                old(keybow)@,
                final(keybow)@,
                self.id(),
                old(keybow)@.reg(self.id()).with_queue(Seq::empty()),
            ),
    {
        self.real_cust_reg.clear_queue(keybow)
    }

    /// Returns number of events currently queued for this `CustRegAsync`, as the bounds of
    /// what reading them would give.
    pub fn size_hint(&self, keybow: &Keybow) -> (r: (usize, Option<usize>))
        requires
            keybow.wf(),
            self.is_of(keybow@),
        ensures
            r.0 == keybow@.reg(self.id()).queue.len(),
            r.1 == Some(r.0),
    {
        self.real_cust_reg.size_hint(keybow)
    }

    /// Lets go of the registration. It hears of no more events, and the keypad forgets it
    /// when next a key has changed.
    pub fn close(self, keybow: &mut Keybow)
        requires
            old(keybow).wf(),
            self.is_of(old(keybow)@),
        ensures
            final(keybow).wf(),
            final(keybow)@ == old(keybow)@.closed(self.id()),
            !final(keybow)@.is_open(self.id()),
            others_same(old(keybow)@, final(keybow)@, self.id()),
    {
        self.real_cust_reg.close(keybow)
    }
}

impl Keybow {
    /// Used by async client code to register for specific key events. The arguments are
    /// those of `register_events_blocking()`.
    pub fn register_events_async(
        &mut self,
        keydown_mask: [bool; NUM_KEYS],
        keyup_mask: [bool; NUM_KEYS],
        queue_length: usize,
        key_mapping: [char; NUM_KEYS],
        iter_timeout: u128,
    ) -> (cust_reg: CustRegAsync)
        requires
            old(self).wf(),
        ensures
            final(self).wf(),
            cust_reg.is_of(final(self)@),
            others_same(old(self)@, final(self)@, cust_reg.id()),
            cust_reg.timeout() == iter_timeout,
            cust_reg.capacity() == queue_length,
            !id_used(old(self)@.regs, cust_reg.id()),
            !old(self)@.is_open(cust_reg.id()),
            ({
                let reg = final(self)@.reg(cust_reg.id());
                &&& reg == RegView::fresh(
                    keydown_mask@,
                    keyup_mask@,
                    queue_length as nat,
                    key_mapping@,
                    reg.sync_channel,
                    reg.async_channel,
                )
                &&& final(self)@ == old(self)@.opened(cust_reg.id(), reg)
            }),
    {
        let cust_reg = self.register_events_blocking(
            keydown_mask,
            keyup_mask,
            queue_length,
            key_mapping,
            iter_timeout,
        );
        CustRegAsync { real_cust_reg: cust_reg, iter_timeout, queue_capacity: queue_length }
    }
}

} // verus!
