//! What is particular to this model of keypad: its size, its wiring, its layout.

use vstd::prelude::*;

verus! {

pub const HARDWARE_NAME: &'static str = "Keybow 12-key keypad, Raspberry Pi Zero";

pub const NUM_KEYS: usize = 12;

pub const NUM_LEDS: usize = NUM_KEYS;

pub const DEBOUNCE_THRESHOLD_MS: u64 = 10;

/// Key index (array index) to GPIO pin (array value).
pub const KEY_INDEX_TO_GPIO: [u8; NUM_KEYS] = [17, 22, 6, 20, 27, 24, 12, 16, 23, 5, 13, 26];

/// 2D array to map from (X,Y) to key/LED index.
pub const XY_TO_INDEX_LOOKUP: [[usize; 3]; 4] = [[0, 4, 8], [1, 5, 9], [2, 6, 10], [3, 7, 11]];

/// Map from LED position in SPI output (array index) to LED index (value).
pub const SPI_SEQ_TO_INDEX_LEDS: [usize; NUM_LEDS] = [3, 2, 1, 0, 7, 6, 5, 4, 11, 10, 9, 8];

pub const LAYOUT_TEXT: &'static str = "
  Keypad numbering:

     00  01  02  03
     04  05  06  07
     08  09  10  11
           |
           |
       power wire
";

#[derive(Debug)]
pub struct HardwareInfo {
    /// Name of hardware model.
    pub name: &'static str,
    /// Number of keys in keypad.
    pub num_keys: usize,
    /// Number of LEDs in keypad (probably always the same as `num_keys`).
    pub num_leds: usize,
    /// Keys index (array index) to GPIO pin (array value).
    pub key_index_to_gpio: [u8; NUM_KEYS],
    /// 2D array to map from (X,Y) to key/LED index.
    pub xy_to_index_lookup: [[usize; 3]; 4],
    /// Sequence of LED indexes to send to SPI.
    pub spi_seq_to_index_leds: [usize; NUM_LEDS],
    /// Human-readable description of hardware.
    pub layout_text: String,
}

/// The key at column `x` and row `y`: four keys to a row, numbered row by row.
pub open spec fn key_at(x: int, y: int) -> int {
    x + 4 * y
}

/// The LED that comes at position `i` of the SPI output: row by row, each row
/// from its last LED back to its first.
pub open spec fn spi_led(i: int) -> int {
    4 * (i / 4) + (3 - i % 4)
}

impl HardwareInfo {
    #[must_use]
    pub fn get_info() -> (info: HardwareInfo)
        ensures
            info.name@ == HARDWARE_NAME@,
            info.num_keys == NUM_KEYS,
            info.num_leds == NUM_LEDS,
            info.key_index_to_gpio@ == KEY_INDEX_TO_GPIO@,
            forall|x: int, y: int|
                0 <= x < 4 && 0 <= y < 3 ==> #[trigger] info.xy_to_index_lookup@[x]@[y] == key_at(
                    x,
                    y,
                ),
            forall|i: int|
                0 <= i < NUM_LEDS ==> #[trigger] info.spi_seq_to_index_leds@[i] == spi_led(i),
            info.xy_to_index_lookup@ == XY_TO_INDEX_LOOKUP@,
            info.spi_seq_to_index_leds@ == SPI_SEQ_TO_INDEX_LEDS@,
            info.layout_text@ == LAYOUT_TEXT@,
    {
        HardwareInfo {
            name: HARDWARE_NAME,
            num_keys: NUM_KEYS,
            num_leds: NUM_LEDS,
            key_index_to_gpio: KEY_INDEX_TO_GPIO,
            xy_to_index_lookup: XY_TO_INDEX_LOOKUP,
            spi_seq_to_index_leds: SPI_SEQ_TO_INDEX_LEDS,
            layout_text: LAYOUT_TEXT.to_string(),
        }
    }
}

/// The tables fit the hardware: the grid has as many places as there are keys,
/// and the two wiring tables have an entry for each key and each LED.
pub proof fn law_tables_fit()
    ensures
        XY_TO_INDEX_LOOKUP@.len() * XY_TO_INDEX_LOOKUP@[0]@.len() == NUM_KEYS,
        KEY_INDEX_TO_GPIO@.len() == NUM_KEYS,
        SPI_SEQ_TO_INDEX_LEDS@.len() == NUM_LEDS,
{
    assert(XY_TO_INDEX_LOOKUP@.len() == 4);
    assert(XY_TO_INDEX_LOOKUP@[0]@.len() == 3);
}

/// The grid shows every key exactly once: each place holds a key, no two places
/// the same one, and key `k` is found at column `k % 4` of row `k / 4`.
pub proof fn law_grid_shows_each_key_once()
    ensures
        forall|x: int, y: int|
            0 <= x < 4 && 0 <= y < 3 ==> 0 <= #[trigger] XY_TO_INDEX_LOOKUP@[x]@[y] < NUM_KEYS,
        forall|x: int, y: int, u: int, v: int|
            0 <= x < 4 && 0 <= y < 3 && 0 <= u < 4 && 0 <= v < 3
                && #[trigger] XY_TO_INDEX_LOOKUP@[x]@[y] == #[trigger] XY_TO_INDEX_LOOKUP@[u]@[v]
                ==> x == u && y == v,
        forall|k: int|
            0 <= k < NUM_KEYS ==> #[trigger] XY_TO_INDEX_LOOKUP@[k % 4]@[k / 4] == k,
{
}

/// The SPI output visits every LED exactly once; the same rule, applied to an LED,
/// gives its position in the output.
pub proof fn law_spi_visits_each_led_once()
    ensures
        forall|i: int|
            0 <= i < NUM_LEDS ==> 0 <= #[trigger] SPI_SEQ_TO_INDEX_LEDS@[i] < NUM_LEDS,
        forall|i: int, j: int|
            0 <= i < NUM_LEDS && 0 <= j < NUM_LEDS && #[trigger] SPI_SEQ_TO_INDEX_LEDS@[i]
                == #[trigger] SPI_SEQ_TO_INDEX_LEDS@[j] ==> i == j,
        forall|led: int|
            0 <= led < NUM_LEDS ==> #[trigger] SPI_SEQ_TO_INDEX_LEDS@[spi_led(led)] == led,
{
}

/// The keys are numbered row by row from the left, and the LEDs of each row come in the SPI
/// output from the right: what is said of the tables is what they hold.
pub proof fn law_rows_of_four(x: int, y: int)
    requires
        0 <= x < 4,
        0 <= y < 3,
    ensures
        XY_TO_INDEX_LOOKUP@[x]@[y] == 4 * y + x,
        key_at(x, y) == 4 * y + x,
        SPI_SEQ_TO_INDEX_LEDS@[4 * y + x] == 4 * y + 3 - x,
        spi_led(4 * y + x) == 4 * y + 3 - x,
{
}

/// There are twelve keys, three rows of four, each with an LED, and a key is quiet for a hundredth
/// of a second before it counts as settled.
pub proof fn law_size_and_timing()
    ensures
        NUM_KEYS == 3 * 4,
        NUM_LEDS == NUM_KEYS,
        100 * DEBOUNCE_THRESHOLD_MS == 1000,
{
}

/// No two keys share a GPIO pin.
pub proof fn law_each_key_has_its_own_pin()
    ensures
        forall|i: int, j: int|
            0 <= i < NUM_KEYS && 0 <= j < NUM_KEYS && #[trigger] KEY_INDEX_TO_GPIO@[i]
                == #[trigger] KEY_INDEX_TO_GPIO@[j] ==> i == j,
{
}

} // verus!
