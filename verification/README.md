# keybow

A driver for the Keybow, a keypad of twelve keys with an RGB LED under each, that mounts onto a
Raspberry Pi Zero. The keys are read over GPIO and debounced, and turned into events for the
clients that registered for them; the LEDs are set over SPI.

## Layout

- `src/` is the library, verified with Verus. It touches no hardware and no thread.
  - `hw_specific` the size, wiring and layout of the keypad
  - `location` naming a key or an LED, by index or by coordinate
  - `event` key positions and key events
  - `queue` what is asked of a queue of events
  - `wake` the two channels that wake those who wait
  - `registration` one client's masks, queue and channels
  - `keybow` the state of the keypad
  - `leds` the frame buffer, and the bytes that show it
  - `keys` debouncing, and telling the registrations
  - `cust_reg`, `cust_reg_async` a client's hold on its registration
  - `laws` what holds across calls
- `app/` is the keypad itself: pins, SPI, threads, locks, sleeping and awaiting.
- `tests/` runs the library.

## How the parts fit

The keypad and the registrations of its clients are one value, `keybow::Keybow`. Those who share
it keep it behind one lock. A client holds a `CustReg` or a `CustRegAsync`, which names its
registration; every call takes the keypad too.

What takes time is done in steps. A wait looks at the queue and says whether to block, and for how
long; the debounce thread of a key looks at the key, sleeps as told, and says what it woke to. The
loops around those steps stand in `app/`, and so does the clock: the library counts nanoseconds
that it is given.

The channels are those of `crossbeam-channel` and `tokio`. Their receiving ends are shared with
other threads, so the contracts say what an end of a channel has sent, taken out or seen. A
registration keeps the one sending end of each channel, and a receiving end beside it, which is
why waking its clients never fails.
