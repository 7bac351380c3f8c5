//! A driver core for the Keybow 12-key illuminated keypad.
//!
//! The keypad has twelve keys, read over GPIO, and an RGB LED under each of
//! them, set over SPI. This crate holds everything about it that does not
//! touch the hardware: the off-screen frame buffer and the bytes that show it,
//! the debouncing of the keys, the registrations of clients and the queues in
//! which their key events wait.
//!
//! Setting LEDs is a two-part thing. First set the desired color in the
//! off-screen frame buffer, then update the physical LEDs from it.

pub mod cust_reg;
pub mod cust_reg_async;
pub mod event;
pub mod hw_specific;
pub mod keybow;
pub mod keys;
pub mod laws;
pub mod leds;
pub mod location;
pub mod queue;
pub mod registration;
pub mod wake;
