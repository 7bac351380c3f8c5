use std::time::{Duration, Instant, SystemTime};

use keybow::event::KeyPosition;
use keybow::registration::CustRegInner;
use keybow::wake::{after_wake, split_nanos, wait_for_wake, Wake, WakeError, LONGEST_WAIT};

fn registration() -> CustRegInner {
    CustRegInner::new([true; 12], [false; 12], 4, ['k'; 12])
}

fn press(reg: &mut CustRegInner, key_index: usize, key_position: KeyPosition) {
    reg.process_one_event(
        key_index,
        key_position,
        Instant::now(),
        SystemTime::now(),
        [KeyPosition::Up; 12],
    );
}

#[test]
fn blocking_client_gets_the_number_of_the_event() {
    let mut reg = registration();
    let receiver = reg.sync_receiver();
    assert!(receiver.try_recv().is_err());
    press(&mut reg, 3, KeyPosition::Down);
    assert_eq!(receiver.try_recv(), Ok(1));
    assert!(receiver.try_recv().is_err());
    press(&mut reg, 3, KeyPosition::Down);
    assert_eq!(receiver.try_recv(), Ok(2));
}

#[test]
fn the_newest_number_takes_the_place_of_an_older_one() {
    let mut reg = registration();
    let receiver = reg.sync_receiver();
    assert_eq!(receiver.capacity(), Some(1));
    press(&mut reg, 3, KeyPosition::Down);
    press(&mut reg, 4, KeyPosition::Down);
    press(&mut reg, 5, KeyPosition::Down);
    assert_eq!(receiver.try_recv(), Ok(3));
    assert!(receiver.try_recv().is_err());
}

#[test]
fn unwanted_changes_wake_no_one() {
    let mut reg = registration();
    let receiver = reg.sync_receiver();
    let watcher = reg.async_receiver();
    press(&mut reg, 3, KeyPosition::Up);
    assert!(receiver.try_recv().is_err());
    assert!(!watcher.has_changed().unwrap());
}

#[test]
fn async_client_sees_a_change_for_each_event() {
    let mut reg = registration();
    let mut watcher = reg.async_receiver();
    assert!(!watcher.has_changed().unwrap());
    press(&mut reg, 3, KeyPosition::Down);
    assert!(watcher.has_changed().unwrap());
    watcher.mark_unchanged();
    press(&mut reg, 4, KeyPosition::Down);
    assert!(watcher.has_changed().unwrap());
}

#[test]
fn waiting_ends_with_a_message() {
    let mut reg = registration();
    let mut receiver = reg.sync_receiver();
    press(&mut reg, 3, KeyPosition::Down);
    assert_eq!(wait_for_wake(&mut receiver, LONGEST_WAIT), Ok(true));
    assert!(receiver.try_recv().is_err());
}

#[test]
fn waiting_ends_when_the_time_is_up() {
    let reg = registration();
    let mut receiver = reg.sync_receiver();
    let begun = Instant::now();
    let nanos = 20_000_000;
    assert_eq!(wait_for_wake(&mut receiver, nanos), Ok(false));
    assert!(begun.elapsed() >= Duration::from_nanos(20_000_000));
    assert_eq!(wait_for_wake(&mut receiver, 0), Ok(false));
}

#[test]
fn waiting_fails_once_the_registration_is_gone() {
    let reg = registration();
    let mut receiver = reg.sync_receiver();
    drop(reg);
    assert_eq!(wait_for_wake(&mut receiver, 0), Err(WakeError::Disconnected));
}

#[test]
fn what_was_sent_before_a_wait_is_no_news_to_it() {
    let mut reg = registration();
    press(&mut reg, 3, KeyPosition::Down);
    press(&mut reg, 4, KeyPosition::Down);
    assert!(reg.async_receiver().has_changed().unwrap());
    let watcher = reg.begin_wait();
    assert!(!watcher.has_changed().unwrap());
    press(&mut reg, 4, KeyPosition::Up);
    assert!(!watcher.has_changed().unwrap());
    press(&mut reg, 5, KeyPosition::Down);
    assert!(watcher.has_changed().unwrap());
}

#[test]
fn the_news_goes_out_whoever_else_receives() {
    let mut reg = registration();
    press(&mut reg, 3, KeyPosition::Down);
    let gone = reg.sync_receiver();
    assert_eq!(gone.try_recv(), Ok(1));
    drop(gone);
    drop(reg.begin_wait());
    press(&mut reg, 4, KeyPosition::Down);
    assert_eq!(reg.sync_receiver().try_recv(), Ok(2));
}

#[test]
fn a_message_that_is_left_comes_before_the_failure() {
    let mut reg = registration();
    let mut receiver = reg.sync_receiver();
    press(&mut reg, 3, KeyPosition::Down);
    drop(reg);
    assert_eq!(wait_for_wake(&mut receiver, LONGEST_WAIT), Ok(true));
    assert_eq!(wait_for_wake(&mut receiver, LONGEST_WAIT), Err(WakeError::Disconnected));
    assert_eq!(wait_for_wake(&mut receiver, 0), Err(WakeError::Disconnected));
}

#[test]
fn reading_leaves_the_news_to_those_who_wait() {
    let mut reg = registration();
    let mut receiver = reg.sync_receiver();
    let watcher = reg.begin_wait();
    press(&mut reg, 3, KeyPosition::Down);
    press(&mut reg, 4, KeyPosition::Down);
    press(&mut reg, 4, KeyPosition::Up);
    assert!(reg.get_next_n_events_masked([true; 12], 3).is_none());
    assert_eq!(reg.get_next_key_event().unwrap().event_num, 1);
    assert_eq!(reg.peek_next_n_events(5).unwrap().len(), 1);
    reg.clear_queue();
    assert!(reg.get_next_key_event().is_none());
    assert!(watcher.has_changed().unwrap());
    assert_eq!(reg.sync_receiver().len(), 1);
    assert_eq!(wait_for_wake(&mut receiver, 0), Ok(true));
    assert_eq!(wait_for_wake(&mut receiver, 0), Ok(false));
}

#[test]
fn how_a_wait_ended() {
    assert_eq!(after_wake(Wake::Woken(5)), Ok(true));
    assert_eq!(after_wake(Wake::Timeout), Ok(false));
    assert_eq!(after_wake(Wake::Disconnected), Err(WakeError::Disconnected));
}

#[test]
fn nanoseconds_are_split_into_seconds_and_the_rest() {
    assert_eq!(split_nanos(0), (0, 0));
    assert_eq!(split_nanos(999_999_999), (0, 999_999_999));
    assert_eq!(split_nanos(12_000_000_034), (12, 34));
    assert_eq!(split_nanos(LONGEST_WAIT), (31_536_000_000_000_000, 0));
}
