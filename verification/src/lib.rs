//! Acquisition and reporting core for a TMP102 temperature sensor.
//!
//! The sensor hands back a two-byte register reply over an I2C bus; this
//! crate decodes that reply into a 12-bit two's-complement sample, renders
//! the temperature as a fixed-format ASCII report line in a bounded
//! `heapless` buffer, and decides the outcome of each polling cycle.
//! Performing the bus transaction and draining the line to the serial
//! port are left to the surrounding firmware.

pub mod line;
pub mod report;
pub mod sample;
pub mod text;

pub use report::BusError;
pub use report::ReportError;
pub use report::Reporter;
pub use report::render_into;
pub use report::TEMPERATURE_REGISTER;
pub use report::TMP102_ADDRESS;
pub use sample::decode_raw_sample;
pub use sample::Temperature;
