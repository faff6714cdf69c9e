//! The errors this library reports.

use vstd::prelude::*;

verus! {

/// Every failure the logger's core can report.
#[derive(Debug, Clone, Copy, PartialEq, Eq, Structural)]
pub enum Error {
    /// The requested serial port serial number was not found.
    PortNotFound,
    /// The operator-input relay is gone; it cannot be restarted.
    StdInThreadDisconnected,
    /// The reassembly buffer filled up before a record delimiter arrived.
    BufferOverflow,
    /// An operator input line held a NUL byte.
    InputContainsNul,
    /// The device reported a read error that is not transient.
    DeviceReadFailed,
    /// `--flow-control` was not one of `n`, `s`, `h`.
    InvalidFlowControlArgument,
    /// `--data-bits` was not one of `8`, `7`, `6`, `5`.
    InvalidDataBitsArgument,
    /// `--parity` was not one of `n`, `e`, `o`.
    InvalidParityArgument,
    /// `--stop-bits` was not one of `1`, `2`.
    InvalidStopBitsArgument,
    /// `--string-parsing` was not `utf8`.
    InvalidStringParsingArgument,
    /// A numeric option's value is not a decimal number in range.
    InvalidNumberArgument,
    /// An argument that no option accepts.
    UnexpectedArgument,
}

} // verus!
