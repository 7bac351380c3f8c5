use keybow::hw_specific::{HardwareInfo, NUM_LEDS};
use keybow::keybow::{Keybow, Rgb, FULL_BRIGHTNESS};
use keybow::location::{coord_to_index, location_to_index, KeyLocation, KeybowError, Point};

const OFF: Rgb = Rgb { r: 0, g: 0, b: 0 };
const TEAL: Rgb = Rgb { r: 1, g: 128, b: 129 };

fn keypad() -> Keybow {
    Keybow::new([false; 12])
}

#[test]
fn leds_start_off() {
    assert_eq!(keypad().get_leds(), [OFF; NUM_LEDS]);
}

#[test]
fn an_led_shows_what_was_set() {
    let mut keybow = keypad();
    assert_eq!(keybow.set_led(KeyLocation::Index(11), TEAL), Ok(()));
    assert_eq!(keybow.get_led(KeyLocation::Index(11)), Ok(TEAL));
    assert_eq!(keybow.get_led(KeyLocation::Coordinate(Point { x: 3, y: 2 })), Ok(TEAL));
    assert_eq!(keybow.get_led(KeyLocation::Index(10)), Ok(OFF));
    assert_eq!(keybow.set_led(KeyLocation::Coordinate(Point { x: 1, y: 2 }), TEAL), Ok(()));
    let mut expected = [OFF; NUM_LEDS];
    expected[11] = TEAL;
    expected[9] = TEAL;
    assert_eq!(keybow.get_leds(), expected);
    keybow.clear_leds();
    assert_eq!(keybow.get_leds(), [OFF; NUM_LEDS]);
}

#[test]
fn bad_locations_are_refused() {
    let mut keybow = keypad();
    for bad_location in [
        KeyLocation::Index(12),
        KeyLocation::Index(usize::MAX),
        KeyLocation::Coordinate(Point { x: 4, y: 0 }),
        KeyLocation::Coordinate(Point { x: 0, y: 3 }),
    ] {
        let error = KeybowError::BadKeyLocation { bad_location };
        assert_eq!(keybow.set_led(bad_location, TEAL), Err(error));
        assert_eq!(keybow.get_led(bad_location), Err(error));
        assert_eq!(location_to_index(bad_location), Err(error));
    }
    assert_eq!(keybow.get_leds(), [OFF; NUM_LEDS]);
}

#[test]
fn coordinates_follow_the_layout() {
    assert_eq!(coord_to_index(Point { x: 0, y: 0 }), Ok(0));
    assert_eq!(coord_to_index(Point { x: 3, y: 0 }), Ok(3));
    assert_eq!(coord_to_index(Point { x: 0, y: 1 }), Ok(4));
    assert_eq!(coord_to_index(Point { x: 2, y: 2 }), Ok(10));
    let lookup = HardwareInfo::get_info().xy_to_index_lookup;
    for x in 0..4 {
        for y in 0..3 {
            assert_eq!(coord_to_index(Point { x, y }), Ok(lookup[x][y]));
        }
    }
    let outside = Point { x: 4, y: 2 };
    assert_eq!(
        coord_to_index(outside),
        Err(KeybowError::BadKeyLocation { bad_location: KeyLocation::Coordinate(outside) })
    );
}

#[test]
fn the_tables_of_the_hardware() {
    let info = HardwareInfo::get_info();
    assert_eq!(info.name, "Keybow 12-key keypad, Raspberry Pi Zero");
    assert_eq!(info.num_keys, 12);
    assert_eq!(info.num_leds, 12);
    assert_eq!(info.key_index_to_gpio, [17, 22, 6, 20, 27, 24, 12, 16, 23, 5, 13, 26]);
    assert_eq!(
        info.xy_to_index_lookup,
        [[0, 4, 8], [1, 5, 9], [2, 6, 10], [3, 7, 11]]
    );
    assert_eq!(info.spi_seq_to_index_leds, [3, 2, 1, 0, 7, 6, 5, 4, 11, 10, 9, 8]);
    assert!(info.layout_text.contains("     00  01  02  03\n     04  05  06  07\n"));
    let mut pins = info.key_index_to_gpio.to_vec();
    pins.sort();
    pins.dedup();
    assert_eq!(pins.len(), 12);
}

#[test]
fn the_frame_of_a_dark_keypad() {
    let frame = keypad().show_leds();
    let mut expected: Vec<u8> = vec![0; 8];
    for _ in 0..12 {
        expected.extend([255, 0, 0, 0]);
    }
    expected.extend([255; 4]);
    assert_eq!(frame, expected);
    assert_eq!(frame.len(), 60);
}

#[test]
fn the_frame_holds_the_colors_in_the_order_of_the_wire() {
    let mut keybow = keypad();
    for index in 0..12u8 {
        let color = Rgb { r: index, g: 20 + index, b: 40 + index };
        assert_eq!(keybow.set_led(KeyLocation::Index(usize::from(index)), color), Ok(()));
    }
    assert_eq!(keybow.set_brightness(5), Ok(()));
    let before = keybow.get_leds();
    let frame = keybow.show_leds();
    assert_eq!(keybow.get_leds(), before);
    assert_eq!(frame[8..12], [0b1110_0101, 43, 23, 3]);
    assert_eq!(frame[20..24], [0b1110_0101, 40, 20, 0]);
    assert_eq!(frame[24..28], [0b1110_0101, 47, 27, 7]);
    assert_eq!(frame[52..56], [0b1110_0101, 48, 28, 8]);
    assert_eq!(frame[56..60], [255, 255, 255, 255]);
}

#[test]
fn brightness_has_a_limit() {
    let mut keybow = keypad();
    assert_eq!(keybow.set_brightness(0), Ok(()));
    assert_eq!(keybow.show_leds()[8], 0b1110_0000);
    assert_eq!(keybow.set_brightness(FULL_BRIGHTNESS), Ok(()));
    assert_eq!(keybow.show_leds()[8], 255);
    assert_eq!(
        keybow.set_brightness(32),
        Err(KeybowError::BadBrightness { bad_brightness: 32 })
    );
    assert_eq!(keybow.show_leds()[8], 255);
}
