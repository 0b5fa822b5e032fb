//! The hardware ports the driver needs: a blocking SPI write, two kinds of
//! digital line, and a millisecond delay.
//!
//! The driver is generic over these traits so that any board support layer
//! can supply them; `crate::mock` holds verified in-memory implementations
//! used by the test suite.

use vstd::prelude::*;

verus! {

/// A blocking SPI write port.
///
/// The ghost history `written` is the sequence of all bytes the port has
/// transmitted, oldest first. A successful `write` appends exactly the bytes
/// it was given; nothing is promised of the history after a failed write.
pub trait SpiWrite {
    /// The port's transfer error.
    type Error;

    /// All bytes transmitted so far, oldest first. A port written outside
    /// verified code need not track the history and may leave this default.
    open spec fn written(&self) -> Seq<u8> {
        Seq::empty()
    }

    /// Transmits `data` as one blocking transfer.
    fn write(&mut self, data: &[u8]) -> (r: Result<(), Self::Error>)
        ensures
            r is Ok ==> final(self).written() == old(self).written() + data@,
    ;
}

/// A digital output line.
pub trait OutPin {
    /// Whether the line is currently driven high. A line written outside
    /// verified code need not track its level and may leave this default.
    open spec fn high(&self) -> bool {
        true
    }

    /// Drives the line low.
    fn set_low(&mut self)
        ensures
            !final(self).high(),
    ;

    /// Drives the line high.
    fn set_high(&mut self)
        ensures
            final(self).high(),
    ;
}

/// A digital input line, read as "is it low?".
///
/// The ghost `low_budget` bounds how many more reads can still come back
/// low: every read that observes a low line shrinks it. An implementation
/// honours the bound when the device behind the line finishes its work
/// after finitely many polls; the driver's busy-wait loops terminate
/// relative to that promise, and poll without any timeout of their own.
pub trait InPin {
    /// An upper bound on the number of future reads that may observe low.
    /// A line written outside verified code need not track the bound and
    /// may leave this default.
    open spec fn low_budget(&self) -> nat {
        0
    }

    /// Reads the line; `true` means it is electrically low.
    fn is_low(&mut self) -> (r: bool)
        ensures
            r ==> final(self).low_budget() < old(self).low_budget(),
    ;
}

/// A blocking millisecond delay source.
pub trait DelayMs {
    /// Blocks for at least `ms` milliseconds.
    fn delay_ms(&mut self, ms: u32);
}

} // verus!
