//! The state of a keypad: its frame buffer, its keys, and the registrations of its
//! clients.

use crate::event::{position_of, KeyPosition};
use crate::hw_specific::{NUM_KEYS, NUM_LEDS};
use crate::registration::{CustRegInner, RegView};
use vstd::prelude::*;

verus! {

/// The color of an LED.
#[derive(Debug, Clone, Copy, PartialEq, Eq, Structural)]
pub struct Rgb {
    pub r: u8,
    pub g: u8,
    pub b: u8,
}

/// The brightness at which LEDs show their full color: what a multiplier of one
/// comes to in the steps of the LEDs' brightness field.
pub const FULL_BRIGHTNESS: u8 = 31;

#[derive(Debug, Clone, Copy, PartialEq, Eq, Structural)]
pub struct UnstableState {
    pub raw_key_position: KeyPosition,
    /// When the key may be found stable, in nanoseconds of the clock.
    pub test_stable_time: u128,
}

#[derive(Debug, Clone, Copy, PartialEq, Eq, Structural)]
pub enum DebounceState {
    /// All is quiet, debounce thread is parked.
    Stable,
    /// Debounce thread is sleeping, then checking, then sleeping.
    Unstable(UnstableState),
}

#[derive(Debug, Clone, Copy)]
pub struct KeyStateDebounceData {
    pub(crate) key_index: usize,
    pub(crate) debounce_state: DebounceState,
}

/// A place in the list of registrations. It is closed once its client has let go
/// of it, and forgotten when next a key has changed.
#[derive(Debug)]
pub struct RegSlot {
    pub(crate) id: u64,
    pub(crate) reg: Option<CustRegInner>,
}

/// The struct for interacting with Keybow.
#[derive(Debug)]
pub struct Keybow {
    /// The off-screen frame buffer.
    pub(crate) led_data: [Rgb; NUM_LEDS],
    /// A global multiplier that applies to all the LEDs when they are shown, in steps
    /// of the LEDs' brightness field.
    pub(crate) brightness: u8,
    /// How far each key is from having settled.
    pub(crate) key_state_debounce_data: Vec<KeyStateDebounceData>,
    /// What key events clients are interested in.
    pub(crate) cust_reg: Vec<RegSlot>,
    /// The debounced position of each key.
    pub(crate) current_up_down_values: [KeyPosition; NUM_KEYS],
}

#[verifier::ext_equal]
pub struct SlotView {
    pub id: u64,
    pub reg: Option<RegView>,
}

/// What a keypad is.
#[verifier::ext_equal]
pub struct KeybowView {
    pub leds: Seq<Rgb>,
    pub brightness: u8,
    pub debounce: Seq<DebounceState>,
    pub positions: [KeyPosition; NUM_KEYS],
    pub regs: Seq<SlotView>,
}

impl KeybowView {
    /// There is a color for each LED and a state for each key, and the registrations
    /// are valid and can be told apart.
    pub open spec fn valid(self) -> bool {
        &&& self.leds.len() == NUM_LEDS
        &&& self.brightness <= FULL_BRIGHTNESS
        &&& self.debounce.len() == NUM_KEYS
        &&& distinct_ids(self.regs)
        &&& forall|i: int|
            0 <= i < self.regs.len() ==> ((#[trigger] self.regs[i]).reg matches Some(reg)
                ==> reg.valid())
    }

    /// Whether there is an open registration of this id.
    pub open spec fn is_open(self, id: u64) -> bool {
        open_in(self.regs, id)
    }

    /// Where the registration of this id stands in the list.
    pub open spec fn slot_of(self, id: u64) -> int {
        slot_in(self.regs, id)
    }

    /// The open registration of this id.
    pub open spec fn reg(self, id: u64) -> RegView {
        reg_in(self.regs, id)
    }

    /// The open registrations.
    pub open spec fn open_regs(self) -> Map<u64, RegView> {
        Map::new(|id: u64| self.is_open(id), |id: u64| self.reg(id))
    }

    /// The keypad with another state of the registration of this id, and else
    /// unchanged.
    pub open spec fn with_reg(self, id: u64, reg: RegView) -> KeybowView {
        KeybowView {
            regs: self.regs.update(self.slot_of(id), SlotView { id, reg: Some(reg) }),
            ..self
        }
    }

    /// The keypad with one more registration.
    pub open spec fn opened(self, id: u64, reg: RegView) -> KeybowView {
        KeybowView { regs: self.regs.push(SlotView { id, reg: Some(reg) }), ..self }
    }

    /// The keypad whose client has let go of the registration of this id.
    pub open spec fn closed(self, id: u64) -> KeybowView {
        KeybowView {
            regs: self.regs.update(self.slot_of(id), SlotView { id, reg: None }),
            ..self
        }
    }
}

/// Whether there is an open registration of this id among these.
pub open spec fn open_in(regs: Seq<SlotView>, id: u64) -> bool {
    exists|i: int|
        0 <= i < regs.len() && (#[trigger] regs[i]).id == id && regs[i].reg is Some
}

/// Where the registration of this id stands among these.
pub open spec fn slot_in(regs: Seq<SlotView>, id: u64) -> int {
    choose|i: int| 0 <= i < regs.len() && (#[trigger] regs[i]).id == id
}

/// The open registration of this id among these.
pub open spec fn reg_in(regs: Seq<SlotView>, id: u64) -> RegView {
    regs[slot_in(regs, id)].reg->0
}

/// The registrations other than that of this id are the same before and after.
pub open spec fn others_same(before: KeybowView, after: KeybowView, id: u64) -> bool {
    forall|other: u64|
        #![trigger open_in(after.regs, other)]
        #![trigger reg_in(after.regs, other)]
        other != id ==> {
            &&& open_in(after.regs, other) == open_in(before.regs, other)
            &&& open_in(before.regs, other) ==> after.reg(other) == before.reg(other)
        }
}

/// The registration of this id has become `reg`, and all else is the same.
pub open spec fn reg_became(before: KeybowView, after: KeybowView, id: u64, reg: RegView) -> bool {
    &&& after == before.with_reg(id, reg)
    &&& after.is_open(id)
    &&& after.reg(id) == reg
    &&& others_same(before, after, id)
}

/// No two registrations have the same id.
pub open spec fn distinct_ids(regs: Seq<SlotView>) -> bool {
    forall|i: int, j: int|
        0 <= i < j < regs.len() ==> (#[trigger] regs[i]).id != (#[trigger] regs[j]).id
}

/// The one place in the list where the registration of an id stands.
pub proof fn lemma_slot_of(keybow: KeybowView, id: u64, i: int)
    requires
        distinct_ids(keybow.regs),
        0 <= i < keybow.regs.len(),
        keybow.regs[i].id == id,
    ensures
        keybow.slot_of(id) == i,
{
    let k = keybow.slot_of(id);
    assert(0 <= k < keybow.regs.len() && keybow.regs[k].id == id);
}

/// Another state of one registration is found where it was put, changes no other
/// registration, and keeps the keypad valid where it is valid itself.
pub proof fn lemma_with_reg(keybow: KeybowView, id: u64, reg: RegView)
    requires
        keybow.valid(),
        keybow.is_open(id),
    ensures
        reg.valid() ==> keybow.with_reg(id, reg).valid(),
        reg_became(keybow, keybow.with_reg(id, reg), id, reg),
        reg == keybow.reg(id) ==> keybow.with_reg(id, reg) == keybow,
{
    let after = keybow.with_reg(id, reg);
    let at = choose|i: int|
        0 <= i < keybow.regs.len() && (#[trigger] keybow.regs[i]).id == id
            && keybow.regs[i].reg is Some;
    lemma_slot_of(keybow, id, at);
    assert(distinct_ids(after.regs));
    assert(after.regs[at].id == id);
    lemma_slot_of(after, id, at);
    assert forall|other: u64|
        #![trigger open_in(after.regs, other)]
        #![trigger reg_in(after.regs, other)]
        other != id implies {
        &&& open_in(after.regs, other) == open_in(keybow.regs, other)
        &&& open_in(keybow.regs, other) ==> after.reg(other) == keybow.reg(other)
    } by {
        lemma_other_slot(keybow, after, at, other);
    }
    if reg == keybow.reg(id) {
        assert(after =~= keybow);
    }
}

/// A registration whose place in the list has not changed is the same.
pub proof fn lemma_other_slot(before: KeybowView, after: KeybowView, at: int, other: u64)
    requires
        distinct_ids(before.regs),
        distinct_ids(after.regs),
        0 <= at < before.regs.len() ==> before.regs[at].id != other,
        0 <= at < after.regs.len() ==> after.regs[at].id != other,
        before.regs.len() <= after.regs.len() <= before.regs.len() + 1,
        after.regs.len() == before.regs.len() + 1 ==> at == before.regs.len(),
        forall|i: int|
            0 <= i < before.regs.len() && i != at ==> #[trigger] after.regs[i] == before.regs[i],
    ensures
        open_in(after.regs, other) == open_in(before.regs, other),
        open_in(before.regs, other) ==> after.reg(other) == before.reg(other),
{
    if open_in(before.regs, other) {
        let i = choose|i: int|
            0 <= i < before.regs.len() && (#[trigger] before.regs[i]).id == other
                && before.regs[i].reg is Some;
        assert(after.regs[i] == before.regs[i]);
        lemma_slot_of(before, other, i);
        lemma_slot_of(after, other, i);
    }
    if open_in(after.regs, other) {
        let i = choose|i: int|
            0 <= i < after.regs.len() && (#[trigger] after.regs[i]).id == other
                && after.regs[i].reg is Some;
        assert(before.regs[i] == after.regs[i]);
    }
}

impl View for RegSlot {
    type V = SlotView;

    open(crate) spec fn view(&self) -> SlotView {
        SlotView {
            id: self.id,
            reg: match self.reg {
                Some(reg) => Some(reg@),
                None => None,
            },
        }
    }
}

impl View for Keybow {
    type V = KeybowView;

    open(crate) spec fn view(&self) -> KeybowView {
        KeybowView {
            leds: self.led_data@,
            brightness: self.brightness,
            debounce: self.key_state_debounce_data@.map_values(
                |data: KeyStateDebounceData| data.debounce_state,
            ),
            positions: self.current_up_down_values,
            regs: self.cust_reg@.map_values(|slot: RegSlot| slot@),
        }
    }
}

impl RegSlot {
    pub open(crate) spec fn wf(self) -> bool {
        self.reg matches Some(reg) ==> reg.wf()
    }
}

impl Keybow {
    /// A valid keypad, whose records are in order.
    pub open(crate) spec fn wf(self) -> bool {
        &&& self@.valid()
        &&& forall|i: int|
            0 <= i < self.key_state_debounce_data@.len() ==> (
            #[trigger] self.key_state_debounce_data@[i]).key_index == i
        &&& forall|i: int| 0 <= i < self.cust_reg@.len() ==> (#[trigger] self.cust_reg@[i]).wf()
    }

    /// A keypad whose pins were found low or not, with the LEDs off and at full
    /// brightness, and no registrations. A pin that is low means that its key is down.
    pub fn new(pins_low: [bool; NUM_KEYS]) -> (keybow: Keybow)
        ensures
            keybow.wf(),
            keybow@.leds == Seq::new(NUM_LEDS as nat, |i: int| (Rgb { r: 0, g: 0, b: 0 })),
            keybow@.brightness == FULL_BRIGHTNESS,
            keybow@.debounce == Seq::new(NUM_KEYS as nat, |i: int| DebounceState::Stable),
            keybow@.positions@ == Seq::new(NUM_KEYS as nat, |i: int| position_of(pins_low@[i])),
            forall|i: int|
                0 <= i < NUM_KEYS ==> ((#[trigger] keybow@.positions@[i]) is Down
                    <==> pins_low@[i]),
            keybow@.regs == Seq::<SlotView>::empty(),
    {
        let mut key_state_debounce_data: Vec<KeyStateDebounceData> = Vec::new();
        let mut current_up_down_values = [KeyPosition::Up; NUM_KEYS];
        let mut index: usize = 0;
        while index < NUM_KEYS
            invariant
                index <= NUM_KEYS,
                key_state_debounce_data@.len() == index,
                forall|i: int|
                    0 <= i < index ==> (#[trigger] key_state_debounce_data@[i]).key_index == i
                        && key_state_debounce_data@[i].debounce_state == DebounceState::Stable,
                forall|i: int|
                    0 <= i < index ==> #[trigger] current_up_down_values@[i] == position_of(
                        pins_low@[i],
                    ),
            decreases NUM_KEYS - index,
        {
            key_state_debounce_data.push(
                KeyStateDebounceData { key_index: index, debounce_state: DebounceState::Stable },
            );
            current_up_down_values[index] = KeyPosition::from(pins_low[index]);
            index = index + 1;
        }
        let keybow = Keybow {
            led_data: [Rgb { r: 0, g: 0, b: 0 };NUM_LEDS],
            brightness: FULL_BRIGHTNESS,
            key_state_debounce_data,
            cust_reg: Vec::new(),
            current_up_down_values,
        };
        assert(keybow@.debounce =~= Seq::new(NUM_KEYS as nat, |i: int| DebounceState::Stable));
        keybow
    }

    /// Where the registration of this id stands in the list.
    pub(crate) fn slot(&self, id: u64) -> (i: usize)
        requires
            self.wf(),
            self@.is_open(id),
        ensures
            i < self.cust_reg@.len(),
            i == self@.slot_of(id),
            self.cust_reg@[i as int].id == id,
            self.cust_reg@[i as int].reg is Some,
    {
        let ghost at = choose|i: int|
            0 <= i < self@.regs.len() && (#[trigger] self@.regs[i]).id == id
                && self@.regs[i].reg is Some;
        let slots: usize = self.cust_reg.len();
        let mut i: usize = 0;
        while self.cust_reg[i].id != id
            invariant
                i <= at < slots == self.cust_reg@.len(),
                self.cust_reg@[at].id == id,
            decreases at - i,
        {
            i = i + 1;
        }
        proof {
            assert(self@.regs[i as int].id == id);
            lemma_slot_of(self@, id, at);
            lemma_slot_of(self@, id, i as int);
        }
        i
    }

    /// The open registration of this id, to be changed.
    pub(crate) fn reg_mut(&mut self, id: u64) -> (reg: &mut CustRegInner)
        requires
            old(self).wf(),
            old(self)@.is_open(id),
        ensures
            reg.wf(),
            reg@ == old(self)@.reg(id),
            final(self)@ =~= old(self)@.with_reg(id, final(reg)@),
            final(reg).wf() && final(self)@ == old(self)@.with_reg(id, final(reg)@)
                ==> final(self).wf(),
            forall|changed: RegView|
                reg_became(
                    old(self)@,
                    #[trigger] old(self)@.with_reg(id, changed),
                    id,
                    changed,
                ),
            old(self)@.with_reg(id, old(self)@.reg(id)) == old(self)@,
    {
        let i: usize = self.slot(id);
        proof {
            assert forall|reg: RegView| #![trigger self@.with_reg(id, reg)]
                {
                    &&& reg.valid() ==> self@.with_reg(id, reg).valid()
                    &&& reg_became(self@, self@.with_reg(id, reg), id, reg)
                } by {
                lemma_with_reg(self@, id, reg);
            }
            lemma_with_reg(self@, id, self@.reg(id));
        }
        self.cust_reg[i].reg.as_mut().unwrap()
    }
}

} // verus!
