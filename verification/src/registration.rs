//! One client's registration: which key events it wants, the queue in which they
//! wait, and the channels that wake it.

use crate::event::{KeyEvent, KeyPosition};
use crate::hw_specific::NUM_KEYS;
use crate::queue::{
    in_number_order, is_match, law_masked_read_keeps_to_its_mask, lemma_matching_push,
    lemma_without_matching_keeps_order, lemma_without_matching_push, matching, newest,
    without_matching,
};
use crate::wake::{
    async_alone, async_channel, async_mark_seen, async_receiver_clone, async_seen, async_send,
    async_sent, async_sink, async_source, sync_alone, sync_channel, sync_is_full, sync_limit,
    sync_received, sync_receiver_clone, sync_sent, sync_sink, sync_source, sync_try_recv,
    sync_try_send, SYNC_CHANNEL_SIZE,
};
use std::collections::VecDeque;
use std::time::{Instant, SystemTime};
use vstd::prelude::*;

verus! {

#[derive(Debug)]
pub struct CustRegInner {
    /// We are interested in key down events from these keys.
    pub(crate) keydown_mask: [bool; NUM_KEYS],
    /// We are interested in key up events from these keys.
    pub(crate) keyup_mask: [bool; NUM_KEYS],
    /// Characters to assign to each key.
    pub(crate) key_mapping: [char; NUM_KEYS],
    /// Where events we are asked for will be stored, oldest first.
    pub(crate) event_queue: VecDeque<KeyEvent>,
    /// How many events the queue may hold.
    pub(crate) queue_length: usize,
    /// How many events there were so far.
    pub(crate) event_count: usize,
    pub(crate) sync_sender: crossbeam_channel::Sender<usize>,
    pub(crate) sync_receiver: crossbeam_channel::Receiver<usize>,
    pub(crate) async_sender: tokio::sync::watch::Sender<()>,
    pub(crate) async_receiver: tokio::sync::watch::Receiver<()>,
}

/// What a registration is.
#[verifier::ext_equal]
pub struct RegView {
    pub keydown_mask: Seq<bool>,
    pub keyup_mask: Seq<bool>,
    pub key_mapping: Seq<char>,
    pub queue: Seq<KeyEvent>,
    pub queue_length: nat,
    pub event_count: nat,
    /// What was sent so far to those who wait.
    pub wakes: Wakes,
    /// The channel on which blocking clients are woken.
    pub sync_channel: nat,
    /// The channel on which async clients are woken.
    pub async_channel: nat,
}

/// What a registration has sent to those who wait: event numbers to the blocking
/// ones, mere changes to the async ones.
#[verifier::ext_equal]
pub struct Wakes {
    pub sync: Seq<usize>,
    pub async_count: nat,
    /// The number that stands in the blocking channel, unless a client has taken it: the
    /// newest that was sent, where the registration has not taken it out again itself.
    pub waiting: Option<usize>,
}

/// Event numbers, none of which is above `n`.
pub open spec fn numbers_up_to(numbers: Seq<usize>, n: nat) -> bool {
    forall|i: int| 0 <= i < numbers.len() ==> #[trigger] numbers[i] <= n
}

/// The last of these numbers, where there is one.
pub open spec fn newest_number(numbers: Seq<usize>) -> Option<usize> {
    if numbers.len() == 0 {
        None
    } else {
        Some(numbers.last())
    }
}

impl RegView {
    /// Every queued event is of a key, is wanted, bears the key's character, and is
    /// numbered in order; and there are no more of them than the queue may hold. What was
    /// sent are numbers of events, and the newest of them is left to those who wait.
    pub open spec fn valid(self) -> bool {
        &&& self.keydown_mask.len() == NUM_KEYS
        &&& self.keyup_mask.len() == NUM_KEYS
        &&& self.key_mapping.len() == NUM_KEYS
        &&& self.queue_length <= usize::MAX
        &&& self.event_count <= usize::MAX
        &&& self.queue.len() <= self.queue_length
        &&& in_number_order(self.queue)
        &&& numbers_up_to(self.wakes.sync, self.event_count)
        &&& self.wakes.waiting == newest_number(self.wakes.sync)
        &&& forall|i: int|
            0 <= i < self.queue.len() ==> self.valid_event(#[trigger] self.queue[i])
    }

    pub open spec fn valid_event(self, event: KeyEvent) -> bool {
        &&& event.key_index < NUM_KEYS
        &&& self.wants(event.key_index as int, event.key_position)
        &&& event.char == self.key_mapping[event.key_index as int]
        &&& 1 <= event.event_num <= self.event_count
    }

    /// Whether the client asked for this change of this key.
    pub open spec fn wants(self, key_index: int, key_position: KeyPosition) -> bool {
        match key_position {
            KeyPosition::Down => self.keydown_mask[key_index],
            KeyPosition::Up => self.keyup_mask[key_index],
        }
    }

    /// The event that a change of a key makes for this client.
    pub open spec fn event_for(
        self,
        key_index: usize,
        key_position: KeyPosition,
        key_instant: Instant,
        key_systime: SystemTime,
        up_down_values: [KeyPosition; NUM_KEYS],
    ) -> KeyEvent {
        KeyEvent {
            key_index,
            char: self.key_mapping[key_index as int],
            key_position,
            event_instant: key_instant,
            event_systime: key_systime,
            up_down_values,
            event_num: (self.event_count + 1) as usize,
            additional_events_still_queued: (if self.queue.len() < self.queue_length {
                self.queue.len() + 1
            } else {
                self.queue_length
            }) as usize,
        }
    }

    /// The registration once a key has changed: where the client asked for the change
    /// the event joins the queue, the oldest make room for it, and the news of it goes
    /// out.
    pub open spec fn received(
        self,
        key_index: usize,
        key_position: KeyPosition,
        key_instant: Instant,
        key_systime: SystemTime,
        up_down_values: [KeyPosition; NUM_KEYS],
    ) -> RegView {
        if self.wants(key_index as int, key_position) {
            let event = self.event_for(
                key_index,
                key_position,
                key_instant,
                key_systime,
                up_down_values,
            );
            RegView {
                queue: newest(self.queue.push(event), self.queue_length),
                event_count: self.event_count + 1,
                wakes: self.wakes.announced(event.event_num),
                ..self
            }
        } else {
            self
        }
    }

    pub open spec fn with_queue(self, queue: Seq<KeyEvent>) -> RegView {
        RegView { queue, ..self }
    }

    /// Whether there are `n` events that match `mask`.
    pub open spec fn has_matching(self, mask: Seq<bool>, n: nat) -> bool {
        matching(self.queue, mask).len() >= n
    }

    /// The registration without its oldest `n` events that match `mask`.
    pub open spec fn taken(self, mask: Seq<bool>, n: nat) -> RegView {
        self.with_queue(without_matching(self.queue, mask, n))
    }

    /// A new registration, with an empty queue.
    pub open spec fn fresh(
        keydown_mask: Seq<bool>,
        keyup_mask: Seq<bool>,
        queue_length: nat,
        key_mapping: Seq<char>,
        sync_channel: nat,
        async_channel: nat,
    ) -> RegView {
        RegView {
            keydown_mask,
            keyup_mask,
            key_mapping,
            queue: Seq::empty(),
            queue_length,
            event_count: 0,
            wakes: Wakes { sync: Seq::empty(), async_count: 0, waiting: None },
            sync_channel,
            async_channel,
        }
    }
}

impl Wakes {
    /// What was sent once the news of an event went out.
    pub open spec fn announced(self, event_num: usize) -> Wakes {
        Wakes {
            sync: self.sync.push(event_num),
            async_count: self.async_count + 1,
            waiting: Some(event_num),
        }
    }
}

/// What a registration has taken out of its blocking channel before and after it made room
/// there for the number of an event: nothing more, or one number, and not that one.
pub open spec fn made_room(before: Seq<usize>, after: Seq<usize>, event_num: usize) -> bool {
    ||| after == before
    ||| exists|older: usize| older != event_num && after == #[trigger] before.push(older)
}

/// A change of a key keeps a registration valid.
pub proof fn lemma_received_valid(
    reg: RegView,
    key_index: usize,
    key_position: KeyPosition,
    key_instant: Instant,
    key_systime: SystemTime,
    up_down_values: [KeyPosition; NUM_KEYS],
)
    requires
        reg.valid(),
        key_index < NUM_KEYS,
        reg.wants(key_index as int, key_position) ==> reg.event_count < usize::MAX,
    ensures
        reg.received(
            key_index,
            key_position,
            key_instant,
            key_systime,
            up_down_values,
        ).valid(),
{
    let after = reg.received(
        key_index,
        key_position,
        key_instant,
        key_systime,
        up_down_values,
    );
    if reg.wants(key_index as int, key_position) {
        let event = reg.event_for(
            key_index,
            key_position,
            key_instant,
            key_systime,
            up_down_values,
        );
        let all = reg.queue.push(event);
        let gone: int = if all.len() > reg.queue_length {
            all.len() - reg.queue_length
        } else {
            0
        };
        assert(forall|i: int| 0 <= i < after.queue.len() ==> after.queue[i] == all[i + gone]);
        assert forall|i: int| 0 <= i < after.queue.len() implies after.valid_event(
            #[trigger] after.queue[i],
        ) by {
            if i + gone < reg.queue.len() {
                assert(reg.valid_event(reg.queue[i + gone]));
            }
        }
        assert forall|i: int, j: int| 0 <= i < j < after.queue.len() implies (
        #[trigger] after.queue[i]).event_num < (#[trigger] after.queue[j]).event_num by {
            assert(reg.valid_event(reg.queue[i + gone]));
            if j + gone < reg.queue.len() {
                assert(reg.queue[i + gone].event_num < reg.queue[j + gone].event_num);
            }
        }
    }
}

/// Taking events out keeps a registration valid.
pub proof fn lemma_taken_valid(reg: RegView, mask: Seq<bool>, n: nat)
    requires
        reg.valid(),
    ensures
        reg.taken(mask, n).valid(),
{
    let after = reg.taken(mask, n);
    lemma_without_matching_keeps_order(reg.queue, mask, n);
    assert forall|i: int| 0 <= i < after.queue.len() implies after.valid_event(
        #[trigger] after.queue[i],
    ) by {
        let k = choose|k: int| 0 <= k < reg.queue.len() && reg.queue[k] == after.queue[i];
        assert(reg.valid_event(reg.queue[k]));
    }
}

impl View for CustRegInner {
    type V = RegView;

    open(crate) spec fn view(&self) -> RegView {
        RegView {
            keydown_mask: self.keydown_mask@,
            keyup_mask: self.keyup_mask@,
            key_mapping: self.key_mapping@,
            queue: self.event_queue@,
            queue_length: self.queue_length as nat,
            event_count: self.event_count as nat,
            wakes: Wakes {
                sync: sync_sent(self.sync_sender),
                async_count: async_sent(self.async_sender).len(),
                waiting: match newest_number(sync_sent(self.sync_sender)) {
                    Some(number) if !self.withdrawn().contains(number) => Some(number),
                    _ => None,
                },
            },
            sync_channel: sync_sink(self.sync_sender),
            async_channel: async_sink(self.async_sender),
        }
    }
}

impl CustRegInner {
    /// The event numbers that the registration has itself taken out of its blocking channel.
    pub open(crate) spec fn withdrawn(self) -> Seq<usize> {
        sync_received(self.sync_receiver)
    }

    /// A valid registration with the only sending end of each channel and a receiving
    /// end of it that was not used to watch, and a blocking channel for one message. It
    /// has taken nothing out of that but event numbers.
    pub open(crate) spec fn wf(self) -> bool {
        &&& self@.valid()
        &&& sync_limit(self.sync_sender) == SYNC_CHANNEL_SIZE
        &&& sync_alone(self.sync_sender)
        &&& async_alone(self.async_sender)
        &&& async_seen(self.async_receiver) == 0
        &&& numbers_up_to(self.withdrawn(), self.event_count as nat)
        &&& sync_sink(self.sync_sender) == sync_source(self.sync_receiver)
        &&& async_sink(self.async_sender) == async_source(self.async_receiver)
    }

    /// A new registration.
    pub fn new(
        keydown_mask: [bool; NUM_KEYS],
        keyup_mask: [bool; NUM_KEYS],
        queue_length: usize,
        key_mapping: [char; NUM_KEYS],
    ) -> (reg: CustRegInner)
        ensures
            reg.wf(),
            reg.withdrawn() == Seq::<usize>::empty(),
            reg@ == RegView::fresh(
                keydown_mask@,
                keyup_mask@,
                queue_length as nat,
                key_mapping@,
                reg@.sync_channel,
                reg@.async_channel,
            ),
    {
        let (sync_sender, sync_receiver) = sync_channel(SYNC_CHANNEL_SIZE);
        let (async_sender, async_receiver) = async_channel();
        CustRegInner {
            keydown_mask,
            keyup_mask,
            key_mapping,
            event_queue: VecDeque::new(),
            queue_length,
            event_count: 0,
            sync_sender,
            sync_receiver,
            async_sender,
            async_receiver,
        }
    }

    pub fn is_key_event_wanted(&self, event: &KeyEvent) -> (wanted: bool)
        requires
            event.key_index < NUM_KEYS,
        ensures
            wanted == self@.wants(event.key_index as int, event.key_position),
            event.key_position is Down ==> wanted == self@.keydown_mask[event.key_index as int],
            event.key_position is Up ==> wanted == self@.keyup_mask[event.key_index as int],
    {
        let key_index: usize = event.key_index;
        match event.key_position {
            KeyPosition::Down => self.keydown_mask[key_index],
            KeyPosition::Up => self.keyup_mask[key_index],
        }
    }

    /// Wakes the clients that wait: sends the number of the event, a new one, to the
    /// blocking ones, after making room for it, and a change to the async ones. What makes
    /// room is an older number at most: the new one is left to the clients.
    fn announce(&mut self, event_num: usize)
        requires
            old(self).wf(),
            0 < event_num <= old(self)@.event_count,
            numbers_up_to(old(self)@.wakes.sync, (event_num - 1) as nat),
            numbers_up_to(old(self).withdrawn(), (event_num - 1) as nat),
        ensures
            final(self).wf(),
            made_room(old(self).withdrawn(), final(self).withdrawn(), event_num),
            final(self)@ == (RegView {
                wakes: old(self)@.wakes.announced(event_num),
                ..old(self)@
            }),
    {
        // Make room if necessary.
        if sync_is_full(&mut self.sync_sender) {
            let _ = sync_try_recv(&mut self.sync_receiver, &mut self.sync_sender);
        }
        // Wake if waiting sync subscriber. There is room, and a receiver.
        let _ = sync_try_send(&mut self.sync_sender, event_num, &self.sync_receiver);
        // Wake if waiting async subscriber. There is a receiver.
        let _ = async_send(&mut self.async_sender, &self.async_receiver);
    }

    /// Takes in one change of a key. Where the client asked for it, the event is
    /// numbered and queued, at the cost of the oldest where the queue is full, and
    /// the clients that wait are woken: the number of the event is left for them in the
    /// blocking channel, in place of an older one.
    pub fn process_one_event(
        &mut self,
        key_index: usize,
        key_position: KeyPosition,
        key_instant: Instant,
        key_systime: SystemTime,
        current_up_down_values: [KeyPosition; NUM_KEYS],
    )
        requires
            old(self).wf(),
            key_index < NUM_KEYS,
            old(self)@.wants(key_index as int, key_position) ==> old(self)@.event_count
                < usize::MAX,
        ensures
            final(self).wf(),
            final(self)@ == old(self)@.received(
                key_index,
                key_position,
                key_instant,
                key_systime,
                current_up_down_values,
            ),
            if old(self)@.wants(key_index as int, key_position) {
                made_room(
                    old(self).withdrawn(),
                    final(self).withdrawn(),
                    (old(self)@.event_count + 1) as usize,
                )
            } else {
                final(self).withdrawn() == old(self).withdrawn()
            },
    {
        let ghost before = self@;
        let mut key_event = KeyEvent {
            key_index,
            char: self.key_mapping[key_index],
            key_position,
            event_instant: key_instant,
            event_systime: key_systime,
            up_down_values: current_up_down_values,
            event_num: 0,
            additional_events_still_queued: 0,
        };
        if self.is_key_event_wanted(&key_event) {
            proof {
                lemma_received_valid(
                    before,
                    key_index,
                    key_position,
                    key_instant,
                    key_systime,
                    current_up_down_values,
                );
            }
            self.event_count = self.event_count + 1;
            key_event.event_num = self.event_count;
            if self.queue_length > 0 {
                // Make room if full.
                if self.event_queue.len() == self.queue_length {
                    let _ = self.event_queue.pop_front();
                }
                key_event.additional_events_still_queued = self.event_queue.len() + 1;
                // Save event.
                self.event_queue.push_back(key_event);
            }
            proof {
                let event = before.event_for(
                    key_index,
                    key_position,
                    key_instant,
                    key_systime,
                    current_up_down_values,
                );
                assert(self.event_queue@ =~= newest(
                    before.queue.push(event),
                    before.queue_length,
                ));
            }
            self.announce(key_event.event_num);
        }
    }

    /// Takes the oldest event out of the queue.
    pub fn get_next_key_event(&mut self) -> (r: Option<KeyEvent>)
        requires
            old(self).wf(),
        ensures
            final(self).wf(),
            final(self).withdrawn() == old(self).withdrawn(),
            old(self)@.queue.len() == 0 ==> r is None && final(self)@ == old(self)@,
            old(self)@.queue.len() > 0 ==> r == Some(old(self)@.queue[0]) && final(self)@ == old(
                self,
            )@.with_queue(old(self)@.queue.skip(1)),
    {
        let ghost before = self@;
        let event = self.event_queue.pop_front();
        proof {
            if before.queue.len() > 0 {
                assert(self.event_queue@ =~= before.queue.skip(1));
                assert forall|i: int| 0 <= i < self@.queue.len() implies self@.valid_event(
                    #[trigger] self@.queue[i],
                ) by {
                    assert(before.valid_event(before.queue[i + 1]));
                }
            }
        }
        event
    }

    /// Takes the oldest `requested_number` events that match `mask` out of the queue,
    /// or none where there are not that many.
    pub fn get_next_n_events_masked(
        &mut self,
        mask: [bool; NUM_KEYS],
        requested_number: usize,
    ) -> (r: Option<Vec<KeyEvent>>)
        requires
            old(self).wf(),
        ensures
            final(self).wf(),
            final(self).withdrawn() == old(self).withdrawn(),
            !old(self)@.has_matching(mask@, requested_number as nat) ==> r is None && final(self)@
                == old(self)@,
            old(self)@.has_matching(mask@, requested_number as nat) ==> {
                &&& r matches Some(events)
                &&& events@ == matching(old(self)@.queue, mask@).take(requested_number as int)
                &&& final(self)@ == old(self)@.taken(mask@, requested_number as nat)
                &&& events@.len() == requested_number
                &&& forall|i: int|
                    0 <= i < events@.len() ==> mask@[(#[trigger] events@[i]).key_index as int]
                &&& forall|k: int|
                    0 <= k < old(self)@.queue.len() && !mask@[(
                    #[trigger] old(self)@.queue[k]).key_index as int]
                        ==> final(self)@.queue.contains(old(self)@.queue[k])
            },
    {
        let ghost before = self@;
        let ghost n = requested_number as nat;
        let mut found_events: Vec<KeyEvent> = Vec::new();
        let mut left: VecDeque<KeyEvent> = VecDeque::new();
        let queued: usize = self.event_queue.len();
        proof {
            assert(before.queue.take(0) =~= Seq::<KeyEvent>::empty());
            reveal(Seq::filter);
            assert(matching(before.queue.take(0), mask@) =~= Seq::<KeyEvent>::empty());
        }
        let mut index: usize = 0;
        while index < queued
            invariant
                index <= queued,
                queued == before.queue.len(),
                before == self@,
                before.valid(),
                n == requested_number,
                matching(before.queue.take(index as int), mask@).len() >= n ==> found_events@
                    == matching(before.queue.take(index as int), mask@).take(n as int),
                matching(before.queue.take(index as int), mask@).len() < n ==> found_events@
                    == matching(before.queue.take(index as int), mask@),
                left@ == without_matching(before.queue.take(index as int), mask@, n),
            decreases queued - index,
        {
            let event = self.event_queue[index];
            let ghost older = before.queue.take(index as int);
            proof {
                assert(before.valid_event(before.queue[index as int]));
                assert(before.queue.take(index + 1) =~= older.push(event));
                lemma_matching_push(older, mask@, event);
                lemma_without_matching_push(older, mask@, n, event);
            }
            if mask[event.key_index] && found_events.len() < requested_number {
                found_events.push(event);
            } else {
                left.push_back(event);
            }
            proof {
                let all = matching(older, mask@);
                if is_match(mask@, event) {
                    if all.len() >= n {
                        assert(all.push(event).take(n as int) =~= all.take(n as int));
                    } else if all.len() + 1 == n {
                        assert(all.push(event).take(n as int) =~= all.push(event));
                    }
                }
            }
            index = index + 1;
        }
        proof {
            assert(before.queue.take(queued as int) =~= before.queue);
        }
        if found_events.len() == requested_number {
            proof {
                lemma_taken_valid(before, mask@, n);
                law_masked_read_keeps_to_its_mask(before.queue, mask@, n);
            }
            self.event_queue = left;
            Some(found_events)
        } else {
            // We return all that were asked for, or none.
            None
        }
    }

    /// A copy of the oldest `requested_number` events, or of as many as there are;
    /// `None` where that is none at all.
    pub fn peek_next_n_events(&self, requested_number: usize) -> (r: Option<Vec<KeyEvent>>)
        ensures
            requested_number == 0 || self@.queue.len() == 0 ==> r is None,
            0 < requested_number <= self@.queue.len() ==> (r matches Some(events) && events@
                == self@.queue.take(requested_number as int)),
            requested_number > self@.queue.len() > 0 ==> (r matches Some(events) && events@
                == self@.queue),
    {
        let queued: usize = self.event_queue.len();
        let wanted: usize = if requested_number > queued {
            queued
        } else {
            requested_number
        };
        let mut peeked: Vec<KeyEvent> = Vec::new();
        let mut index: usize = 0;
        while index < wanted
            invariant
                index <= wanted <= self@.queue.len(),
                peeked@ == self@.queue.take(index as int),
            decreases wanted - index,
        {
            peeked.push(self.event_queue[index]);
            index = index + 1;
            assert(self@.queue.take(index as int) =~= self@.queue.take(index - 1).push(
                self@.queue[index - 1],
            ));
        }
        assert(self@.queue.take(self@.queue.len() as int) =~= self@.queue);
        if peeked.len() == 0 {
            None
        } else {
            Some(peeked)
        }
    }

    /// Throws away all queued events.
    pub fn clear_queue(&mut self)
        requires
            old(self).wf(),
        ensures
            final(self).wf(),
            final(self).withdrawn() == old(self).withdrawn(),
            final(self)@ == old(self)@.with_queue(Seq::empty()),
    {
        self.event_queue.clear();
    }

    /// How many events are queued.
    pub fn queued(&self) -> (n: usize)
        ensures
            n == self@.queue.len(),
    {
        self.event_queue.len()
    }

    /// A receiving end of the channel on which blocking clients are woken.
    pub fn sync_receiver(&self) -> (receiver: crossbeam_channel::Receiver<usize>)
        requires
            self.wf(),
        ensures
            sync_source(receiver) == self@.sync_channel,
            sync_received(receiver) == Seq::<usize>::empty(),
    {
        sync_receiver_clone(&self.sync_receiver)
    }

    /// A receiving end of the channel on which async clients are woken, to which all
    /// that was ever sent is news.
    pub fn async_receiver(&self) -> (receiver: tokio::sync::watch::Receiver<()>)
        requires
            self.wf(),
        ensures
            async_source(receiver) == self@.async_channel,
            async_seen(receiver) == 0,
    {
        async_receiver_clone(&self.async_receiver)
    }

    /// A receiving end of the channel on which async clients are woken, to which what
    /// was sent so far is no news.
    pub fn begin_wait(&self) -> (receiver: tokio::sync::watch::Receiver<()>)
        requires
            self.wf(),
        ensures
            async_source(receiver) == self@.async_channel,
            async_seen(receiver) == self@.wakes.async_count,
    {
        let mut receiver = self.async_receiver();
        async_mark_seen(&mut receiver, &self.async_sender);
        receiver
    }
}

} // verus!
