//! Driver library for the JD79661 four-color e-paper display controller.
//!
//! The library has two layers. [`buffer::DisplayBuffer`] is a 250x122
//! four-color canvas backed by three packed monochrome bitplanes.
//! `driver::Jd79661` owns the display's control lines, runs the controller's
//! power-up command sequence, and transcodes a finished buffer into the
//! panel's column-major 2-bit-per-pixel wire format.
//!
//! All hardware access goes through the small port traits in `hal`
//! (an SPI write port, output and input lines, a millisecond delay), so the
//! logic of the driver is independent of any particular board support crate.

pub mod buffer;
pub mod driver;
pub mod hal;
pub mod mock;

pub use buffer::DisplayBuffer;
pub use buffer::QuadColor;
pub use buffer::BUF_SIZE;
pub use buffer::HEIGHT;
pub use buffer::WIDTH;
pub use driver::Jd79661;
