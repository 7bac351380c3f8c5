use std::time::{Instant, SystemTime};

use keybow::cust_reg::{CustReg, WaitStep};
use keybow::cust_reg_async::AsyncStep;
use keybow::event::{KeyPosition, Level};
use keybow::keybow::{Keybow, UnstableState};
use keybow::keys::DebounceStep;
use keybow::location::{KeyLocation, KeybowError};
use keybow::wake::LONGEST_WAIT;

const CHARS: [char; 12] = ['0', '1', '2', '3', '4', '5', '6', '7', '8', '9', 'a', 'b'];

fn keypad() -> Keybow {
    Keybow::new([false; 12])
}

/// Moves a key and lets it settle.
fn settle(keybow: &mut Keybow, key_index: usize, down: bool) {
    keybow.debounce_callback(key_index, down, 10, 1_000);
    let seen = keybow.debounce_look(key_index).unwrap();
    assert!(keybow.can_count_event(key_index, seen.raw_key_position));
    let step = keybow.debounce_wake(key_index, seen, Instant::now(), SystemTime::now());
    assert_eq!(step, DebounceStep::Settled);
}

fn mask_of(keys: &[usize]) -> [bool; 12] {
    let mut mask = [false; 12];
    for key in keys {
        mask[*key] = true;
    }
    mask
}

#[test]
fn positions_and_levels() {
    assert_eq!(KeyPosition::from(true), KeyPosition::Down);
    assert_eq!(KeyPosition::from(false), KeyPosition::Up);
    assert!(bool::from(KeyPosition::Down));
    assert!(!bool::from(KeyPosition::Up));
    assert_eq!(KeyPosition::from(Level::High), KeyPosition::Down);
    assert_eq!(KeyPosition::from(Level::Low), KeyPosition::Up);
}

#[test]
fn keys_start_where_the_pins_are() {
    let mut pins_low = [false; 12];
    pins_low[7] = true;
    let keybow = Keybow::new(pins_low);
    let mut expected = [KeyPosition::Up; 12];
    expected[7] = KeyPosition::Down;
    assert_eq!(keybow.get_keys(), expected);
    assert_eq!(keybow.get_key(7), Ok(KeyPosition::Down));
    assert_eq!(keybow.get_key(11), Ok(KeyPosition::Up));
    assert!(keybow.debounce_look(7).is_none());
}

#[test]
fn there_is_no_thirteenth_key() {
    assert_eq!(
        keypad().get_key(12),
        Err(KeybowError::BadKeyLocation { bad_location: KeyLocation::Index(12) })
    );
}

#[test]
fn the_thread_is_unparked_once() {
    let mut keybow = keypad();
    assert!(keybow.debounce_callback(3, true, 10, 100));
    assert!(!keybow.debounce_callback(3, false, 10, 103));
    assert!(keybow.debounce_callback(4, true, 10, 104));
    assert!(!keybow.debounce_callback(3, true, 10, 107));
    assert_eq!(
        keybow.debounce_look(3),
        Some(UnstableState { raw_key_position: KeyPosition::Down, test_stable_time: 117 })
    );
    assert_eq!(keybow.get_key(3), Ok(KeyPosition::Up));
}

#[test]
fn times_do_not_overflow() {
    let mut keybow = keypad();
    keybow.debounce_callback(0, true, u64::MAX, u64::MAX);
    assert_eq!(
        keybow.debounce_look(0).unwrap().test_stable_time,
        2 * u128::from(u64::MAX)
    );
}

#[test]
fn a_bouncing_key_is_not_heard_of() {
    let mut keybow = keypad();
    let reg = keybow.register_events_blocking([true; 12], [true; 12], 5, CHARS, 0);
    keybow.debounce_callback(3, true, 10, 100);
    let seen = keybow.debounce_look(3).unwrap();
    keybow.debounce_callback(3, false, 10, 105);
    let step = keybow.debounce_wake(3, seen, Instant::now(), SystemTime::now());
    match step {
        DebounceStep::SleepAgain(now_seen) => assert_eq!(
            now_seen,
            UnstableState { raw_key_position: KeyPosition::Up, test_stable_time: 115 }
        ),
        _ => panic!("not to sleep again: {step:?}"),
    }
    assert_eq!(reg.size_hint(&keybow), (0, Some(0)));

    let seen = keybow.debounce_look(3).unwrap();
    let step = keybow.debounce_wake(3, seen, Instant::now(), SystemTime::now());
    assert_eq!(step, DebounceStep::Settled);
    assert_eq!(reg.size_hint(&keybow), (1, Some(1)));
    assert_eq!(reg.get_next_key_event(&mut keybow).unwrap().key_position, KeyPosition::Up);
    assert!(keybow.debounce_look(3).is_none());
}

#[test]
fn a_stable_key_is_not_bouncing() {
    let mut keybow = keypad();
    let seen = UnstableState { raw_key_position: KeyPosition::Down, test_stable_time: 5 };
    let step = keybow.debounce_wake(3, seen, Instant::now(), SystemTime::now());
    assert!(matches!(step, DebounceStep::NotBouncing));
    assert_eq!(keybow.get_key(3), Ok(KeyPosition::Up));
}

#[test]
fn a_settled_key_shows_in_the_event() {
    let mut keybow = keypad();
    let reg = keybow.register_events_blocking([true; 12], [false; 12], 5, CHARS, 0);
    settle(&mut keybow, 2, true);
    settle(&mut keybow, 11, true);
    settle(&mut keybow, 2, false);
    assert_eq!(keybow.get_key(2), Ok(KeyPosition::Up));
    assert_eq!(keybow.get_key(11), Ok(KeyPosition::Down));
    let first = reg.get_next_key_event(&mut keybow).unwrap();
    let second = reg.get_next_key_event(&mut keybow).unwrap();
    assert_eq!((first.key_index, first.char, first.event_num), (2, '2', 1));
    assert_eq!((second.key_index, second.char, second.event_num), (11, 'b', 2));
    assert_eq!(first.up_down_values[2], KeyPosition::Down);
    assert_eq!(first.up_down_values[11], KeyPosition::Up);
    assert_eq!(second.up_down_values[2], KeyPosition::Down);
    assert_eq!(second.up_down_values[11], KeyPosition::Down);
    assert!(reg.get_next_key_event(&mut keybow).is_none());
}

#[test]
fn each_client_gets_what_it_asked_for() {
    let mut keybow = keypad();
    let downs = keybow.register_events_blocking([true; 12], [false; 12], 5, CHARS, 0);
    let ups = keybow.register_events_blocking([false; 12], [true; 12], 5, CHARS, 0);
    let one = keybow.register_events_async(mask_of(&[1]), mask_of(&[1]), 5, ['z'; 12], 0);
    settle(&mut keybow, 1, true);
    settle(&mut keybow, 1, false);
    settle(&mut keybow, 2, true);
    assert_eq!(downs.size_hint(&keybow), (2, Some(2)));
    assert_eq!(ups.size_hint(&keybow), (1, Some(1)));
    assert_eq!(one.size_hint(&keybow), (2, Some(2)));
    assert_eq!(one.get_next_char(&mut keybow), Some('z'));
    assert_eq!(downs.get_next_char(&mut keybow), Some('1'));
    assert_eq!(downs.get_next_char(&mut keybow), Some('2'));
    assert_eq!(downs.get_next_char(&mut keybow), None);
    assert_eq!(ups.get_next_char(&mut keybow), Some('1'));
    assert_eq!(one.size_hint(&keybow), (1, Some(1)));
}

#[test]
fn a_client_can_leave() {
    let mut keybow = keypad();
    let first = keybow.register_events_blocking([true; 12], [false; 12], 5, CHARS, 0);
    let second = keybow.register_events_blocking([true; 12], [false; 12], 5, CHARS, 0);
    let third = keybow.register_events_async([true; 12], [false; 12], 5, CHARS, 0);
    first.close(&mut keybow);
    third.close(&mut keybow);
    settle(&mut keybow, 6, true);
    settle(&mut keybow, 7, true);
    settle(&mut keybow, 8, true);
    let fourth = keybow.register_events_blocking([true; 12], [false; 12], 5, CHARS, 0);
    settle(&mut keybow, 9, true);
    assert_eq!(second.size_hint(&keybow), (4, Some(4)));
    assert_eq!(fourth.size_hint(&keybow), (1, Some(1)));
    assert_eq!(fourth.get_next_char(&mut keybow), Some('9'));
    assert_eq!(second.get_next_char(&mut keybow), Some('6'));
}

#[test]
fn closed_registrations_are_all_forgotten() {
    let mut keybow = keypad();
    let first = keybow.register_events_blocking([true; 12], [false; 12], 5, CHARS, 0);
    let second = keybow.register_events_blocking([true; 12], [false; 12], 5, CHARS, 0);
    first.close(&mut keybow);
    second.close(&mut keybow);
    for left in [2, 0, 0, 0] {
        assert_eq!(format!("{keybow:?}").matches("RegSlot").count(), left);
        settle(&mut keybow, 0, true);
    }
}

#[test]
fn open_registrations_stay_in_order_when_closed_ones_are_forgotten() {
    let mut keybow = keypad();
    let mut regs = Vec::new();
    for length in [11, 22, 33, 44, 55] {
        regs.push(keybow.register_events_blocking([true; 12], [false; 12], length, CHARS, 0));
    }
    for index in [4, 2, 1] {
        regs.remove(index).close(&mut keybow);
    }
    settle(&mut keybow, 7, true);
    let shown = format!("{keybow:?}");
    let first = shown.find("queue_length: 11").expect("is open");
    let fourth = shown.find("queue_length: 44").expect("is open");
    assert!(first < fourth);
    for length in ["22", "33", "55"] {
        assert!(!shown.contains(&format!("queue_length: {length}")));
    }
    for reg in &regs {
        assert_eq!(reg.get_next_key_event(&mut keybow).unwrap().key_index, 7);
    }
}

#[test]
fn reading_through_a_client() {
    let mut keybow = keypad();
    let reg = keybow.register_events_blocking([true; 12], [false; 12], 10, CHARS, 0);
    for key in [4, 9, 4, 2] {
        settle(&mut keybow, key, true);
    }
    assert_eq!(reg.peek_next_n_events(&keybow, 9).unwrap().len(), 4);
    let nine = reg.get_next_key_event_masked(&mut keybow, mask_of(&[9])).unwrap();
    assert_eq!(nine.key_index, 9);
    assert!(reg.get_next_key_event_masked(&mut keybow, mask_of(&[9])).is_none());
    assert!(reg.get_next_n_events_masked(&mut keybow, mask_of(&[4]), 3).is_none());
    let fours = reg.get_next_n_events_masked(&mut keybow, mask_of(&[4]), 2).unwrap();
    assert_eq!(fours.len(), 2);
    assert_eq!(fours[1].event_num, 3);
    assert_eq!(reg.size_hint(&keybow), (1, Some(1)));
    reg.clear_queue(&mut keybow);
    assert_eq!(reg.size_hint(&keybow), (0, Some(0)));
}

#[test]
fn deadlines() {
    assert_eq!(CustReg::wait_deadline(5, 7), 12);
    assert_eq!(CustReg::wait_deadline(5, LONGEST_WAIT), 5 + LONGEST_WAIT);
    assert_eq!(CustReg::wait_deadline(u64::MAX, u128::MAX), u128::from(u64::MAX) + LONGEST_WAIT);
    assert_eq!(LONGEST_WAIT, 31_536_000_000_000_000 * 1_000_000_000);
    let mut keybow = keypad();
    let reg = keybow.register_events_blocking([true; 12], [false; 12], 10, CHARS, 30);
    assert_eq!(reg.iter_deadline(12), 42);
}

#[test]
fn a_wait_goes_on_until_the_events_are_there() {
    let mut keybow = keypad();
    let reg = keybow.register_events_blocking([true; 12], [false; 12], 10, CHARS, 0);
    let deadline = CustReg::wait_deadline(100, 50);
    let step = reg.wait_next_n_key_events_masked(&mut keybow, mask_of(&[1]), 2, 100, deadline);
    assert!(matches!(step, WaitStep::Block { nanos: 50 }));
    settle(&mut keybow, 1, true);
    settle(&mut keybow, 2, true);
    let step = reg.wait_next_n_key_events_masked(&mut keybow, mask_of(&[1]), 2, 120, deadline);
    assert!(matches!(step, WaitStep::Block { nanos: 30 }));
    settle(&mut keybow, 1, true);
    match reg.wait_next_n_key_events_masked(&mut keybow, mask_of(&[1]), 2, 140, deadline) {
        WaitStep::Ready(events) => {
            assert_eq!(events.len(), 2);
            assert_eq!((events[0].event_num, events[1].event_num), (1, 3));
        }
        step => panic!("not ready: {step:?}"),
    }
    assert_eq!(reg.size_hint(&keybow), (1, Some(1)));
}

#[test]
fn a_wait_is_given_up_after_its_deadline() {
    let mut keybow = keypad();
    let reg = keybow.register_events_blocking([true; 12], [false; 12], 10, CHARS, 0);
    let deadline = CustReg::wait_deadline(100, 50);
    assert!(matches!(
        reg.wait_next_key_event(&mut keybow, 150, deadline),
        WaitStep::Block { nanos: 0 }
    ));
    assert!(matches!(
        reg.wait_next_key_event(&mut keybow, 151, deadline),
        WaitStep::TimedOut
    ));
    settle(&mut keybow, 5, true);
    match reg.wait_next_key_event(&mut keybow, 151, deadline) {
        WaitStep::Ready(event) => assert_eq!(event.key_index, 5),
        step => panic!("not ready: {step:?}"),
    }
    settle(&mut keybow, 6, true);
    assert!(matches!(
        reg.wait_next_key_event_masked(&mut keybow, mask_of(&[5]), 151, deadline),
        WaitStep::TimedOut
    ));
    assert!(matches!(
        reg.wait_next_char(&mut keybow, 151, deadline),
        WaitStep::Ready('6')
    ));
    assert!(matches!(
        reg.wait_next_char(&mut keybow, 151, deadline),
        WaitStep::TimedOut
    ));
}

#[test]
fn the_receiver_of_a_client_is_that_of_its_registration() {
    let mut keybow = keypad();
    let one = keybow.register_events_blocking(mask_of(&[1]), [false; 12], 10, CHARS, 0);
    let two = keybow.register_events_blocking(mask_of(&[2]), [false; 12], 10, CHARS, 0);
    let receiver_one = one.sync_receiver(&keybow);
    let receiver_two = two.sync_receiver(&keybow);
    settle(&mut keybow, 2, true);
    settle(&mut keybow, 2, true);
    assert!(receiver_one.try_recv().is_err());
    assert_eq!(receiver_two.try_recv(), Ok(2));
}

#[test]
fn an_async_wait() {
    let mut keybow = keypad();
    let reg = keybow.register_events_async([true; 12], [false; 12], 10, CHARS, 0);
    settle(&mut keybow, 3, true);
    let receiver = reg.begin_wait(&keybow);
    assert!(!receiver.has_changed().unwrap());
    assert!(matches!(
        reg.wait_next_n_key_events_masked(&mut keybow, [true; 12], 2),
        AsyncStep::Await
    ));
    settle(&mut keybow, 4, true);
    assert!(receiver.has_changed().unwrap());
    match reg.wait_next_n_key_events_masked(&mut keybow, [true; 12], 2) {
        AsyncStep::Ready(events) => {
            assert_eq!((events[0].key_index, events[1].key_index), (3, 4));
        }
        step => panic!("not ready: {step:?}"),
    }
    assert!(matches!(reg.wait_next_key_event(&mut keybow), AsyncStep::Await));
    for key in [6, 7, 8] {
        settle(&mut keybow, key, true);
    }
    match reg.wait_next_key_event_masked(&mut keybow, mask_of(&[8])) {
        AsyncStep::Ready(event) => assert_eq!(event.key_index, 8),
        step => panic!("not ready: {step:?}"),
    }
    assert!(matches!(reg.wait_next_char(&mut keybow), AsyncStep::Ready('6')));
    assert_eq!(reg.peek_next_n_events(&keybow, 5).unwrap().len(), 1);
    assert_eq!(
        reg.get_next_key_event_masked(&mut keybow, mask_of(&[7])).unwrap().event_num,
        4
    );
    assert!(reg.get_next_key_event(&mut keybow).is_none());
    assert!(reg.get_next_n_events_masked(&mut keybow, [true; 12], 1).is_none());
    settle(&mut keybow, 1, true);
    reg.clear_queue(&mut keybow);
    assert_eq!(reg.size_hint(&keybow), (0, Some(0)));
}
