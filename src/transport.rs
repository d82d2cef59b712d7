//! The byte-stream transport the reader is reached through.
use vstd::prelude::*;

verus! {

/// A byte-stream link to the reader module (a UART, a serial port, ...).
///
/// Nothing is assumed of what an implementation reads or writes: the
/// driver copes with any byte count it is handed. A read that returns 0
/// bytes means that nothing has arrived yet.
pub trait RfidTransport {
    /// Error type of the transport's operations.
    type Error: core::fmt::Debug;

    /// Writes `data` to the link.
    fn write(&mut self, data: &[u8]) -> Result<usize, Self::Error>;

    /// Reads what has arrived into `buf`, waiting at most `timeout_ms`
    /// milliseconds, and returns the number of bytes read. The buffer keeps
    /// its length, as a slice always does.
    fn read(&mut self, buf: &mut [u8], timeout_ms: u32) -> (r: Result<usize, Self::Error>)
        ensures
            final(buf)@.len() == old(buf)@.len(),
    ;

    /// Discards pending input.
    fn clear_input(&mut self) -> Result<(), Self::Error>;

    /// Waits `ms` milliseconds, letting the module settle.
    fn delay_ms(&mut self, ms: u32);
}

} // verus!
