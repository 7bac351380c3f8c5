//! The LEDs: the off-screen frame buffer, and the bytes that show it.

use crate::hw_specific::{
    law_spi_visits_each_led_once, spi_led, HardwareInfo, NUM_LEDS, SPI_SEQ_TO_INDEX_LEDS,
};
use crate::keybow::{Keybow, KeybowView, Rgb, FULL_BRIGHTNESS};
use crate::location::{location_index, location_to_index, KeyLocation, KeybowError};
use vstd::prelude::*;

verus! {

/// The three bits that mark the start of an LED's four bytes, above its brightness.
pub const LED_MARK: u8 = 0b1110_0000;

/// The four bytes that set one LED.
pub open spec fn led_bytes(brightness: u8, color: Rgb) -> Seq<u8> {
    seq![(LED_MARK + brightness) as u8, color.b, color.g, color.r]
}

/// The bytes of the first `n` LEDs of the SPI output.
pub open spec fn first_leds(leds: Seq<Rgb>, brightness: u8, n: nat) -> Seq<u8>
    decreases n,
{
    if n == 0 {
        Seq::empty()
    } else {
        first_leds(leds, brightness, (n - 1) as nat) + led_bytes(
            brightness,
            leds[spi_led(n - 1)],
        )
    }
}

/// The bytes that show the frame buffer: eight zeros, four bytes for each LED, and
/// four times 255.
pub open spec fn frame(leds: Seq<Rgb>, brightness: u8) -> Seq<u8> {
    Seq::new(8, |i: int| 0u8) + first_leds(leds, brightness, NUM_LEDS as nat) + Seq::new(
        4,
        |i: int| 255u8,
    )
}

/// Four bytes of a frame set an LED: the mark with the brightness, then blue, green and red.
pub open spec fn shows_at(bytes: Seq<u8>, at: int, brightness: u8, color: Rgb) -> bool {
    &&& bytes[at] == 0b1110_0000 + brightness
    &&& bytes[at + 1] == color.b
    &&& bytes[at + 2] == color.g
    &&& bytes[at + 3] == color.r
}

impl KeybowView {
    /// The keypad with this color at this place of the frame buffer.
    pub open spec fn with_led(self, index: int, color: Rgb) -> KeybowView {
        KeybowView { leds: self.leds.update(index, color), ..self }
    }
}

impl Keybow {
    /// Set one LED color in off-screen frame buffer.
    pub fn set_led(&mut self, key_location: KeyLocation, color: Rgb) -> (r: Result<
        (),
        KeybowError,
    >)
        requires
            old(self).wf(),
        ensures
            final(self).wf(),
            match location_index(key_location) {
                Some(index) => r is Ok && final(self)@ == old(self)@.with_led(index, color),
                None => r == Err::<(), KeybowError>(
                    KeybowError::BadKeyLocation { bad_location: key_location },
                ) && final(self)@ == old(self)@,
            },
    {
        match location_to_index(key_location) {
            Ok(key_index) => {
                self.led_data[key_index] = color;
                Ok(())
            },
            Err(error) => Err(error),
        }
    }

    /// Get one LED color from off-screen frame buffer.
    pub fn get_led(&self, key_location: KeyLocation) -> (r: Result<Rgb, KeybowError>)
        requires
            self.wf(),
        ensures
            r == match location_index(key_location) {
                Some(index) => Ok::<Rgb, KeybowError>(self@.leds[index]),
                None => Err(KeybowError::BadKeyLocation { bad_location: key_location }),
            },
    {
        match location_to_index(key_location) {
            Ok(key_index) => Ok(self.led_data[key_index]),
            Err(error) => Err(error),
        }
    }

    /// Return the entire off-screen frame buffer as a linear buffer
    /// indexed by LED index.
    pub fn get_leds(&self) -> (leds: [Rgb; NUM_LEDS])
        ensures
            leds@ == self@.leds,
    {
        self.led_data
    }

    /// Set off-screen frame buffer to all off.
    pub fn clear_leds(&mut self)
        requires
            old(self).wf(),
        ensures
            final(self).wf(),
            final(self)@ == (KeybowView {
                leds: Seq::new(NUM_LEDS as nat, |i: int| (Rgb { r: 0, g: 0, b: 0 })),
                ..old(self)@
            }),
    {
        self.led_data = [Rgb { r: 0, g: 0, b: 0 };NUM_LEDS];
        assert(self.led_data@ =~= Seq::new(
            NUM_LEDS as nat,
            |i: int| (Rgb { r: 0, g: 0, b: 0 }),
        ));
    }

    /// Sets new brightness, a multiplier applied to to all LED values when they are
    /// shown, from `0` for off to `FULL_BRIGHTNESS`. This function does not show them,
    /// however.
    pub fn set_brightness(&mut self, new_brightness: u8) -> (r: Result<(), KeybowError>)
        requires
            old(self).wf(),
        ensures
            final(self).wf(),
            new_brightness <= FULL_BRIGHTNESS ==> r is Ok && final(self)@ == (KeybowView {
                brightness: new_brightness,
                ..old(self)@
            }),
            new_brightness > FULL_BRIGHTNESS ==> r == Err::<(), KeybowError>(
                KeybowError::BadBrightness { bad_brightness: new_brightness },
            ) && final(self)@ == old(self)@,
    {
        if new_brightness <= FULL_BRIGHTNESS {
            self.brightness = new_brightness;
            Ok(())
        } else {
            Err(KeybowError::BadBrightness { bad_brightness: new_brightness })
        }
    }

    /// The bytes that copy the off-screen frame buffer to the physical LEDs, once they
    /// are written to SPI. Off-screen frame buffer is not altered.
    ///
    /// Changes to LED colors will not be visible until these bytes are written.
    pub fn show_leds(&self) -> (led_spi: Vec<u8>)
        requires
            self.wf(),
        ensures
            led_spi@ == frame(self@.leds, self@.brightness),
            led_spi@.len() == 60,
            forall|i: int|
                0 <= i < NUM_LEDS ==> shows_at(
                    led_spi@,
                    8 + 4 * i,
                    self@.brightness,
                    #[trigger] self@.leds[SPI_SEQ_TO_INDEX_LEDS@[i] as int],
                ),
    {
        let level: u8 = self.brightness;
        let bright_spi: u8 = level | LED_MARK;
        assert(level <= 31 ==> level | 0b1110_0000u8 == 0b1110_0000u8 + level) by (bit_vector);

        // We write the LEDs by sending:
        //
        //  - Header of 8-bytes of zeros,
        //  - 4-bytes for each of the 12-LEDs,
        //  - Tail of 4-bytes of 255.
        let order = HardwareInfo::get_info().spi_seq_to_index_leds;
        let mut led_spi: Vec<u8> = vec![0, 0, 0, 0, 0, 0, 0, 0];
        let ghost header = Seq::new(8, |i: int| 0u8);
        assert(led_spi@ =~= header + first_leds(self@.leds, self@.brightness, 0));
        let mut position: usize = 0;
        while position < NUM_LEDS
            invariant
                position <= NUM_LEDS,
                bright_spi == LED_MARK + self@.brightness,
                self@.leds.len() == NUM_LEDS,
                forall|i: int| 0 <= i < NUM_LEDS ==> #[trigger] order@[i] == spi_led(i),
                led_spi@ == header + first_leds(
                    self@.leds,
                    self@.brightness,
                    position as nat,
                ),
            decreases NUM_LEDS - position,
        {
            let one_led_index: usize = order[position];
            let ghost before = led_spi@;
            let color = self.led_data[one_led_index];
            led_spi.push(bright_spi);
            led_spi.push(color.b);
            led_spi.push(color.g);
            led_spi.push(color.r);
            assert(led_spi@ =~= before + led_bytes(self@.brightness, color));
            position = position + 1;
            assert(led_spi@ =~= header + first_leds(
                self@.leds,
                self@.brightness,
                position as nat,
            ));
        }
        led_spi.push(255);
        led_spi.push(255);
        led_spi.push(255);
        led_spi.push(255);
        assert(led_spi@ =~= frame(self@.leds, self@.brightness));
        proof {
            law_frame_layout(self@.leds, self@.brightness, 0);
            assert forall|i: int| 0 <= i < NUM_LEDS implies shows_at(
                led_spi@,
                8 + 4 * i,
                self@.brightness,
                #[trigger] self@.leds[SPI_SEQ_TO_INDEX_LEDS@[i] as int],
            ) by {
                law_frame_byte_by_byte(self@.leds, self@.brightness, i);
            }
        }
        led_spi
    }
}

/// Where the bytes of the LED at position `i` of the SPI output stand.
proof fn lemma_led_bytes_stand(leds: Seq<Rgb>, brightness: u8, n: nat, i: int)
    requires
        0 <= i < n <= NUM_LEDS,
    ensures
        first_leds(leds, brightness, n).len() == 4 * n,
        first_leds(leds, brightness, n).subrange(4 * i, 4 * i + 4) == led_bytes(
            brightness,
            leds[spi_led(i)],
        ),
    decreases n,
{
    let before = first_leds(leds, brightness, (n - 1) as nat);
    lemma_first_leds_len(leds, brightness, (n - 1) as nat);
    lemma_first_leds_len(leds, brightness, n);
    if i < n - 1 {
        lemma_led_bytes_stand(leds, brightness, (n - 1) as nat, i);
        assert(first_leds(leds, brightness, n).subrange(4 * i, 4 * i + 4) =~= before.subrange(
            4 * i,
            4 * i + 4,
        ));
    } else {
        assert(first_leds(leds, brightness, n).subrange(4 * i, 4 * i + 4) =~= led_bytes(
            brightness,
            leds[spi_led(i)],
        ));
    }
}

proof fn lemma_first_leds_len(leds: Seq<Rgb>, brightness: u8, n: nat)
    ensures
        first_leds(leds, brightness, n).len() == 4 * n,
    decreases n,
{
    if n > 0 {
        lemma_first_leds_len(leds, brightness, (n - 1) as nat);
    }
}

/// The frame has a header, four bytes for each LED and a tail; and the four bytes at
/// position `i` are those of the LED that comes there in the SPI output.
pub proof fn law_frame_layout(leds: Seq<Rgb>, brightness: u8, i: int)
    requires
        leds.len() == NUM_LEDS,
        0 <= i < NUM_LEDS,
    ensures
        frame(leds, brightness).len() == 8 + 4 * NUM_LEDS + 4,
        frame(leds, brightness).subrange(8 + 4 * i, 12 + 4 * i) == led_bytes(
            brightness,
            leds[SPI_SEQ_TO_INDEX_LEDS@[i] as int],
        ),
        forall|k: int| 0 <= k < 8 ==> #[trigger] frame(leds, brightness)[k] == 0,
        forall|k: int|
            8 + 4 * NUM_LEDS <= k < 12 + 4 * NUM_LEDS ==> #[trigger] frame(leds, brightness)[k]
                == 255,
{
    lemma_led_bytes_stand(leds, brightness, NUM_LEDS as nat, i);
    assert(SPI_SEQ_TO_INDEX_LEDS@[i] == spi_led(i));
    assert(frame(leds, brightness).subrange(8 + 4 * i, 12 + 4 * i) =~= first_leds(
        leds,
        brightness,
        NUM_LEDS as nat,
    ).subrange(4 * i, 4 * i + 4));
}

/// The frame byte by byte, at every brightness: the LED of each place of the grid has its mark
/// and brightness, its blue, its green and its red, in this order, at the place in the frame
/// that the wiring gives it, row by row and each row from the right.
pub proof fn law_frame_byte_by_byte(leds: Seq<Rgb>, brightness: u8, i: int)
    requires
        leds.len() == 12,
        brightness <= 31,
        0 <= i < 12,
    ensures
        ({
            let bytes = frame(leds, brightness);
            let color = leds[SPI_SEQ_TO_INDEX_LEDS@[i] as int];
            &&& bytes.len() == 60
            &&& bytes[8 + 4 * i] == 0b1110_0000 + brightness
            &&& bytes[9 + 4 * i] == color.b
            &&& bytes[10 + 4 * i] == color.g
            &&& bytes[11 + 4 * i] == color.r
            &&& color == leds[4 * (i / 4) + 3 - i % 4]
        }),
        shows_at(
            frame(leds, brightness),
            8 + 4 * i,
            brightness,
            leds[SPI_SEQ_TO_INDEX_LEDS@[i] as int],
        ),
{
    law_frame_layout(leds, brightness, i);
    let bytes = frame(leds, brightness);
    let four = bytes.subrange(8 + 4 * i, 12 + 4 * i);
    assert(four[0] == bytes[8 + 4 * i]);
    assert(four[1] == bytes[9 + 4 * i]);
    assert(four[2] == bytes[10 + 4 * i]);
    assert(four[3] == bytes[11 + 4 * i]);
    assert(SPI_SEQ_TO_INDEX_LEDS@[i] == spi_led(i));
}

/// A full brightness fills the bits that the mark leaves, and none is above it.
pub proof fn law_full_brightness_fills_the_byte()
    ensures
        LED_MARK + FULL_BRIGHTNESS == 255,
        FULL_BRIGHTNESS == 31,
{
}

/// Setting an LED changes its color and nothing else of the keypad, not the colors of the others.
pub proof fn law_set_led_changes_one_color(
    keybow: KeybowView,
    index: int,
    color: Rgb,
    other: int,
)
    requires
        0 <= index < keybow.leds.len(),
        0 <= other < keybow.leds.len(),
    ensures
        ({
            let after = keybow.with_led(index, color);
            &&& after.leds.len() == keybow.leds.len()
            &&& after.leds[index] == color
            &&& other != index ==> after.leds[other] == keybow.leds[other]
            &&& after.brightness == keybow.brightness
            &&& after.debounce == keybow.debounce
            &&& after.positions == keybow.positions
            &&& after.regs == keybow.regs
        }),
{
}

/// The frame shows the whole frame buffer: buffers of different colors, or brightness,
/// give different frames.
pub proof fn law_frame_shows_everything(
    leds: Seq<Rgb>,
    brightness: u8,
    other_leds: Seq<Rgb>,
    other_brightness: u8,
)
    requires
        leds.len() == NUM_LEDS,
        other_leds.len() == NUM_LEDS,
        brightness <= FULL_BRIGHTNESS,
        other_brightness <= FULL_BRIGHTNESS,
        frame(leds, brightness) == frame(other_leds, other_brightness),
    ensures
        leds == other_leds,
        brightness == other_brightness,
{
    law_spi_visits_each_led_once();
    assert forall|led: int| 0 <= led < NUM_LEDS implies leds[led] == other_leds[led]
        && brightness == other_brightness by {
        let i = spi_led(led);
        assert(SPI_SEQ_TO_INDEX_LEDS@[i] == led);
        law_frame_layout(leds, brightness, i);
        law_frame_layout(other_leds, other_brightness, i);
        let bytes = led_bytes(brightness, leds[led]);
        let other = led_bytes(other_brightness, other_leds[led]);
        assert(bytes == other);
        assert(bytes[0] == other[0] && bytes[1] == other[1] && bytes[2] == other[2] && bytes[3]
            == other[3]);
    }
    assert(leds[0] == other_leds[0]);
    assert(leds =~= other_leds);
}

/// An LED shows what was last set for it, by index or by coordinate, and setting it
/// changes no other.
pub proof fn law_set_led_then_get(
    keybow: KeybowView,
    location: KeyLocation,
    color: Rgb,
    other: KeyLocation,
)
    requires
        keybow.valid(),
        location_index(location) is Some,
        location_index(other) is Some,
    ensures
        keybow.with_led(location_index(location)->0, color).leds[location_index(other)->0] == (
        if location_index(other) == location_index(location) {
            color
        } else {
            keybow.leds[location_index(other)->0]
        }),
{
}

} // verus!
