//! Interrupt diagnostics for HID peripherals on an I2C bus.
//!
//! The crate has two halves.  Discovery reconstructs, from the text of the
//! kernel's interrupt-counter table and from the names and descriptors of
//! the device directories, which bus controller serves which HID device and
//! which interrupt lines belong to them.  Sampling turns successive readings
//! of the counters into rates, keeps a bounded window of them for every
//! source and for their total, and drives the state of a dashboard.
//!
//! Nothing here reads files, tells the time or draws: callers hand in the
//! text they read and the time that has passed.  Times are whole
//! milliseconds; rates are whole thousandths of an interrupt per second.

pub mod axis;
pub mod dashboard;
pub mod discovery;
pub mod grouping;
pub mod hid;
pub mod hints;
pub mod history;
pub mod interrupts;
pub mod irq_map;
pub mod matching;
pub mod monitor;
pub mod number;
pub mod rate;
pub mod schedule;
pub mod text;
pub mod window;
