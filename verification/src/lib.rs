//! Verified logic of the K20 (Teensy 3.x) bring-up and watchdog bench firmware:
//! the reset-diagnostic record that survives resets in `.uninit` RAM, the
//! watchdog snapshot taken at boot, the GPIO masks used to drive the LED, and
//! the free-running counters of the main loops.

pub mod bits;
pub mod counter;
pub mod gpio;
pub mod reset_record;
pub mod wdog;
