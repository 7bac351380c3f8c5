use std::io::{self, Write};
use std::time::{Duration, Instant, SystemTime};

use keybow::cust_reg::{CustReg, WaitStep};
use keybow::hw_specific::{self, HardwareInfo};
use keybow::keybow::{Keybow, Rgb};
use keybow::keys::DebounceStep;
use keybow::location::KeyLocation;

const RED: Rgb = Rgb { r: 255, g: 0, b: 0 };
const GREEN: Rgb = Rgb { r: 0, g: 255, b: 0 };

/// Moves a key, lets it bounce twice, and lets it settle.
fn move_key(keybow: &mut Keybow, index: usize, down: bool, now: &mut u64) {
    let threshold = hw_specific::DEBOUNCE_THRESHOLD_MS * 1_000_000;
    assert!(keybow.debounce_callback(index, down, threshold, *now));
    *now += 1_000;
    assert!(!keybow.debounce_callback(index, !down, threshold, *now));
    *now += 1_000;
    assert!(!keybow.debounce_callback(index, down, threshold, *now));
    let seen = keybow.debounce_look(index).expect("key is moving");
    assert_eq!(seen.test_stable_time, u128::from(*now + threshold));
    *now += threshold;
    let step = keybow.debounce_wake(index, seen, Instant::now(), SystemTime::now());
    assert_eq!(step, DebounceStep::Settled);
}

fn press(keybow: &mut Keybow, index: usize, now: &mut u64) {
    move_key(keybow, index, true, now);
    move_key(keybow, index, false, now);
}

fn wait_next_char(reg: &CustReg, keybow: &mut Keybow, now: u64, timeout: Duration) -> Option<char> {
    let deadline = CustReg::wait_deadline(now, timeout.as_nanos());
    match reg.wait_next_char(keybow, now, deadline) {
        WaitStep::Ready(c) => Some(c),
        _ => None,
    }
}

#[test]
fn test_test() {
    let stderr = io::stderr();
    let mut handle = stderr.lock();

    let hw_info = HardwareInfo::get_info();

    // Rewrite test if other hardware.
    assert_eq!(hw_info.num_keys, 12);
    let complete_chars = ['0', '1', '2', '3', '4', '5', '6', '7', '8', '9', 'a', 'b'];

    let _ = handle
        .write_all(format!("Test: press keys in sequence.\n{}\n", hw_info.layout_text,).as_bytes());

    let mut keybow = Keybow::new([false; hw_specific::NUM_KEYS]);
    let mut now: u64 = 0;

    println!(
        "\nKey to press should be red, turn green when pressed.\n{}",
        hw_info.layout_text
    );
    let reg = keybow.register_events(
        [true; hw_specific::NUM_KEYS],
        [false; hw_specific::NUM_KEYS],
        20,
        complete_chars,
        Duration::MAX.as_nanos(),
    );

    keybow.clear_leds();
    let _ = keybow.show_leds();

    for (index, one_char) in complete_chars.iter().enumerate() {
        let _ = keybow.set_led(KeyLocation::Index(index), RED);
        let _ = keybow.show_leds();
        press(&mut keybow, index, &mut now);
        let read_char = wait_next_char(&reg, &mut keybow, now, Duration::MAX)
            .expect("unexpected timeout")
            .to_string();
        let read_bytes = &read_char.as_bytes();
        let _ = handle.write_all(read_bytes);
        assert_eq!(read_bytes[0], one_char.to_string().as_bytes()[0]);
        let _ = keybow.set_led(KeyLocation::Index(index), GREEN);
        let _ = keybow.show_leds();
    }

    keybow.clear_leds();
    let _ = keybow.show_leds();

    let _ = handle.write_all(b"\n\nManual test: now press sequence BACKWARDS.\n\n");
    for (index, one_char) in complete_chars.iter().rev().enumerate() {
        let backwards_index = hw_info.num_keys - index - 1;
        let _ = keybow.set_led(KeyLocation::Index(backwards_index), RED);
        let _ = keybow.show_leds();
        press(&mut keybow, backwards_index, &mut now);
        let read_char = wait_next_char(&reg, &mut keybow, now, Duration::MAX)
            .expect("unexpected timeout")
            .to_string();
        let read_bytes = &read_char.as_bytes();
        let _ = handle.write_all(read_bytes);
        assert_eq!(read_bytes[0], one_char.to_string().as_bytes()[0]);
        let _ = keybow.set_led(KeyLocation::Index(backwards_index), GREEN);
        let _ = keybow.show_leds();
    }

    keybow.clear_leds();
    let _ = keybow.show_leds();
    assert!(wait_next_char(&reg, &mut keybow, now, Duration::ZERO).is_none());
}
