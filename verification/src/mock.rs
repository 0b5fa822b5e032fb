//! In-memory implementations of the `crate::hal` ports.
//!
//! `MockSpi` records every transmitted byte, `MockPin` remembers its level,
//! and the two busy-line types model a controller that is ready at once or
//! after a fixed number of polls. The test suite drives the display logic
//! against these.

use vstd::prelude::*;

use crate::hal::DelayMs;
use crate::hal::InPin;
use crate::hal::OutPin;
use crate::hal::SpiWrite;

verus! {

/// Appends every byte of `data` to `log`.
fn append_bytes(log: &mut Vec<u8>, data: &[u8])
    ensures
        final(log)@ == old(log)@ + data@,
{
    let mut i: usize = 0;
    while i < data.len()
        invariant
            i <= data@.len(),
            log@ == old(log)@ + data@.take(i as int),
        decreases data@.len() - i,
    {
        log.push(data[i]);
        proof {
            assert(log@ =~= old(log)@ + data@.take(i + 1));
        }
        i = i + 1;
    }
    proof {
        assert(old(log)@ + data@.take(i as int) =~= old(log)@ + data@);
    }
}

/// An SPI port that stores every byte it is asked to transmit.
pub struct MockSpi {
    /// Every byte transmitted so far, oldest first.
    pub log: Vec<u8>,
}

impl MockSpi {
    /// A port with an empty transmit log.
    pub fn new() -> (r: MockSpi)
        ensures
            r.written() == Seq::<u8>::empty(),
    {
        MockSpi { log: Vec::new() }
    }
}

impl SpiWrite for MockSpi {
    type Error = ();

    open spec fn written(&self) -> Seq<u8> {
        self.log@
    }

    fn write(&mut self, data: &[u8]) -> (r: Result<(), ()>) {
        append_bytes(&mut self.log, data);
        Ok(())
    }
}

/// An SPI port that fails every transfer.
pub struct FailSpi {
}

impl FailSpi {
    /// A port on a broken bus.
    pub fn new() -> (r: FailSpi) {
        FailSpi {}
    }
}

impl SpiWrite for FailSpi {
    type Error = ();

    open spec fn written(&self) -> Seq<u8> {
        Seq::empty()
    }

    fn write(&mut self, _data: &[u8]) -> (r: Result<(), ()>) {
        Err(())
    }
}

/// An SPI port that records what it accepts but fails any transfer that
/// would push it past its byte budget.
pub struct LimitedSpi {
    /// Every byte accepted so far, oldest first.
    pub log: Vec<u8>,
    /// The total number of bytes the port will accept.
    pub cap: usize,
}

impl LimitedSpi {
    /// A port that accepts at most `cap` bytes.
    pub fn new(cap: usize) -> (r: LimitedSpi)
        ensures
            r.written() == Seq::<u8>::empty(),
            r.cap == cap,
    {
        LimitedSpi { log: Vec::new(), cap }
    }
}

impl SpiWrite for LimitedSpi {
    type Error = ();

    open spec fn written(&self) -> Seq<u8> {
        self.log@
    }

    fn write(&mut self, data: &[u8]) -> (r: Result<(), ()>) {
        if self.log.len() > self.cap || data.len() > self.cap - self.log.len() {
            return Err(());
        }
        append_bytes(&mut self.log, data);
        Ok(())
    }
}

/// An output line that remembers the level it was last driven to.
pub struct MockPin {
    /// Whether the line is high.
    pub is_high: bool,
}

impl MockPin {
    /// A line driven low.
    pub fn new() -> (r: MockPin)
        ensures
            !r.high(),
    {
        MockPin { is_high: false }
    }
}

impl OutPin for MockPin {
    open spec fn high(&self) -> bool {
        self.is_high
    }

    fn set_low(&mut self) {
        self.is_high = false;
    }

    fn set_high(&mut self) {
        self.is_high = true;
    }
}

/// A busy line that always reads high: the device is never busy.
pub struct ReadyPin {
}

impl ReadyPin {
    /// A line that is already high.
    pub fn new() -> (r: ReadyPin) {
        ReadyPin {}
    }
}

impl InPin for ReadyPin {
    open spec fn low_budget(&self) -> nat {
        0
    }

    fn is_low(&mut self) -> (r: bool) {
        false
    }
}

/// A busy line that reads low a fixed number of times before it goes high
/// and stays high.
pub struct CountdownPin {
    /// How many more reads will still see the line low.
    pub polls_left: u32,
}

impl CountdownPin {
    /// A line that stays low for the next `polls` reads.
    pub fn new(polls: u32) -> (r: CountdownPin)
        ensures
            r.polls_left == polls,
    {
        CountdownPin { polls_left: polls }
    }
}

impl InPin for CountdownPin {
    open spec fn low_budget(&self) -> nat {
        self.polls_left as nat
    }

    fn is_low(&mut self) -> (r: bool) {
        if self.polls_left > 0 {
            self.polls_left = self.polls_left - 1;
            true
        } else {
            false
        }
    }
}

/// A delay source that only counts how often it was asked to wait.
pub struct MockDelay {
    /// How many delay calls were made, saturating at the counter's maximum.
    pub calls: u64,
}

impl MockDelay {
    /// A delay source with no calls recorded yet.
    pub fn new() -> (r: MockDelay)
        ensures
            r.calls == 0,
    {
        MockDelay { calls: 0 }
    }
}

impl DelayMs for MockDelay {
    fn delay_ms(&mut self, _ms: u32) {
        if self.calls < u64::MAX {
            self.calls = self.calls + 1;
        }
    }
}

} // verus!
