use std::time::{Instant, SystemTime};

use keybow::event::{KeyEvent, KeyPosition};
use keybow::registration::CustRegInner;

const CHARS: [char; 12] = ['0', '1', '2', '3', '4', '5', '6', '7', '8', '9', 'a', 'b'];

fn all_downs(queue_length: usize) -> CustRegInner {
    CustRegInner::new([true; 12], [false; 12], queue_length, CHARS)
}

fn change(reg: &mut CustRegInner, key_index: usize, key_position: KeyPosition) {
    let mut up_down_values = [KeyPosition::Up; 12];
    up_down_values[key_index] = key_position;
    reg.process_one_event(
        key_index,
        key_position,
        Instant::now(),
        SystemTime::now(),
        up_down_values,
    );
}

fn press(reg: &mut CustRegInner, keys: &[usize]) {
    for key in keys {
        change(reg, *key, KeyPosition::Down);
    }
}

fn mask_of(keys: &[usize]) -> [bool; 12] {
    let mut mask = [false; 12];
    for key in keys {
        mask[*key] = true;
    }
    mask
}

fn indices(events: &[KeyEvent]) -> Vec<usize> {
    events.iter().map(|event| event.key_index).collect()
}

fn queued(reg: &CustRegInner) -> Vec<usize> {
    reg.peek_next_n_events(usize::MAX)
        .map(|events| indices(&events))
        .unwrap_or_default()
}

#[test]
fn event_says_what_happened() {
    let mut reg = CustRegInner::new([true; 12], [true; 12], 5, CHARS);
    let instant = Instant::now();
    let systime = SystemTime::now();
    let mut up_down_values = [KeyPosition::Up; 12];
    up_down_values[10] = KeyPosition::Down;
    up_down_values[2] = KeyPosition::Down;
    reg.process_one_event(10, KeyPosition::Down, instant, systime, up_down_values);
    let event = reg.get_next_key_event().unwrap();
    assert_eq!(event.key_index, 10);
    assert_eq!(event.char, 'a');
    assert_eq!(event.key_position, KeyPosition::Down);
    assert_eq!(event.event_instant, instant);
    assert_eq!(event.event_systime, systime);
    assert_eq!(event.up_down_values, up_down_values);
    assert_eq!(event.event_num, 1);
    assert_eq!(event.additional_events_still_queued, 1);
    assert!(reg.get_next_key_event().is_none());
}

#[test]
fn only_wanted_events_are_queued() {
    let mut reg = CustRegInner::new(mask_of(&[1, 2]), mask_of(&[2, 3]), 10, CHARS);
    for key in 0..5 {
        change(&mut reg, key, KeyPosition::Down);
        change(&mut reg, key, KeyPosition::Up);
    }
    let events = reg.peek_next_n_events(10).unwrap();
    assert_eq!(indices(&events), vec![1, 2, 2, 3]);
    let positions: Vec<KeyPosition> = events.iter().map(|event| event.key_position).collect();
    assert_eq!(
        positions,
        vec![KeyPosition::Down, KeyPosition::Down, KeyPosition::Up, KeyPosition::Up]
    );
    let numbers: Vec<usize> = events.iter().map(|event| event.event_num).collect();
    assert_eq!(numbers, vec![1, 2, 3, 4]);
}

#[test]
fn is_wanted_goes_by_the_mask_of_the_position() {
    let mut reg = CustRegInner::new([true; 12], [false; 12], 1, CHARS);
    press(&mut reg, &[4]);
    let mut event = reg.get_next_key_event().unwrap();
    assert!(reg.is_key_event_wanted(&event));
    event.key_position = KeyPosition::Up;
    assert!(!reg.is_key_event_wanted(&event));
}

#[test]
fn overflow_discards_the_oldest() {
    let mut reg = all_downs(3);
    press(&mut reg, &[0, 1, 2, 3, 4]);
    assert_eq!(reg.queued(), 3);
    let events = reg.peek_next_n_events(3).unwrap();
    assert_eq!(indices(&events), vec![2, 3, 4]);
    let numbers: Vec<usize> = events.iter().map(|event| event.event_num).collect();
    assert_eq!(numbers, vec![3, 4, 5]);
    let still: Vec<usize> =
        events.iter().map(|event| event.additional_events_still_queued).collect();
    assert_eq!(still, vec![3, 3, 3]);
}

#[test]
fn queue_of_one_keeps_the_newest() {
    let mut reg = all_downs(1);
    press(&mut reg, &[7, 8]);
    assert_eq!(queued(&reg), vec![8]);
}

#[test]
fn queue_of_none_keeps_nothing() {
    let mut reg = all_downs(0);
    press(&mut reg, &[7, 8]);
    assert_eq!(reg.queued(), 0);
    assert!(reg.get_next_key_event().is_none());
}

#[test]
fn huge_queue_is_accepted() {
    let mut reg = all_downs(usize::MAX);
    press(&mut reg, &[1, 1]);
    assert_eq!(queued(&reg), vec![1, 1]);
}

#[test]
fn events_come_out_oldest_first() {
    let mut reg = all_downs(5);
    press(&mut reg, &[3, 1, 2]);
    assert_eq!(reg.get_next_key_event().unwrap().key_index, 3);
    assert_eq!(reg.get_next_key_event().unwrap().key_index, 1);
    press(&mut reg, &[9]);
    assert_eq!(reg.get_next_key_event().unwrap().key_index, 2);
    assert_eq!(reg.get_next_key_event().unwrap().event_num, 4);
    assert!(reg.get_next_key_event().is_none());
}

#[test]
fn masked_take_leaves_the_rest() {
    let mut reg = all_downs(10);
    press(&mut reg, &[0, 5, 1, 5, 6, 5]);
    let taken = reg.get_next_n_events_masked(mask_of(&[5, 6]), 3).unwrap();
    assert_eq!(indices(&taken), vec![5, 5, 6]);
    assert_eq!(queued(&reg), vec![0, 1, 5]);
}

#[test]
fn masked_take_is_all_or_none() {
    let mut reg = all_downs(10);
    press(&mut reg, &[0, 5, 1, 5]);
    assert!(reg.get_next_n_events_masked(mask_of(&[5]), 3).is_none());
    assert_eq!(queued(&reg), vec![0, 5, 1, 5]);
    assert!(reg.get_next_n_events_masked([false; 12], 1).is_none());
    assert_eq!(queued(&reg), vec![0, 5, 1, 5]);
}

#[test]
fn masked_take_of_no_events_always_succeeds() {
    let mut reg = all_downs(10);
    assert_eq!(reg.get_next_n_events_masked([true; 12], 0).unwrap().len(), 0);
    press(&mut reg, &[0, 5]);
    assert_eq!(reg.get_next_n_events_masked([true; 12], 0).unwrap().len(), 0);
    assert_eq!(queued(&reg), vec![0, 5]);
}

#[test]
fn peek_copies_as_many_as_there_are() {
    let mut reg = all_downs(10);
    assert!(reg.peek_next_n_events(2).is_none());
    press(&mut reg, &[0, 5, 7]);
    assert!(reg.peek_next_n_events(0).is_none());
    assert_eq!(indices(&reg.peek_next_n_events(2).unwrap()), vec![0, 5]);
    assert_eq!(indices(&reg.peek_next_n_events(3).unwrap()), vec![0, 5, 7]);
    assert_eq!(indices(&reg.peek_next_n_events(4).unwrap()), vec![0, 5, 7]);
    assert_eq!(reg.queued(), 3);
}

#[test]
fn clearing_empties_the_queue_but_not_the_count() {
    let mut reg = all_downs(10);
    press(&mut reg, &[0, 5, 7]);
    reg.clear_queue();
    assert_eq!(reg.queued(), 0);
    press(&mut reg, &[1]);
    assert_eq!(reg.get_next_key_event().unwrap().event_num, 4);
}

#[test]
fn peek_shows_what_is_read_next() {
    let mut reg = all_downs(8);
    press(&mut reg, &[4, 1, 4, 9]);
    let peeked = reg.peek_next_n_events(3).expect("events are queued");
    let read = reg.get_next_n_events_masked([true; 12], 3).expect("events are queued");
    assert_eq!(indices(&peeked), vec![4, 1, 4]);
    assert_eq!(indices(&peeked), indices(&read));
    assert_eq!(peeked[2].event_num, read[2].event_num);
    assert_eq!(queued(&reg), vec![9]);
}
