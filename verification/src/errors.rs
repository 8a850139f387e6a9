//! What can go wrong, and what is done about each kind of failure.

use vstd::prelude::*;

verus! {

/// A kind of failure.
#[derive(Clone, Copy, Debug, PartialEq, Eq, Structural)]
pub enum ErrorKind {
    /// The terminal draws no graphics, or cannot be talked to.
    EnvironmentUnsupported,
    /// A path does not exist or cannot be read.
    InputMissing,
    /// An image is malformed or of an unknown format.
    DecodeFailed,
    /// A row could not be quantized or encoded.
    EncodeFailed,
    /// The cache directory cannot be written.
    CacheUnavailable,
    /// Nobody reads the output any more.
    OutputClosed,
    /// The user interrupted the run.
    Interrupt,
}

/// What is done about a failure.
#[derive(Clone, Copy, Debug, PartialEq, Eq, Structural)]
pub enum Policy {
    /// Leave with a diagnostic and a failure status.
    Fatal,
    /// Leave the item out and go on.
    SkipItem,
    /// Leave the row out and go on.
    SkipRow,
    /// Go on as if nothing had happened.
    Proceed,
    /// Leave with a success status.
    ExitCleanly,
    /// Restore the terminal and leave with the status of an interrupt.
    Interrupted,
}

/// The status with which an interrupted run ends.
pub const INTERRUPT_STATUS: u8 = 130;

/// What is done about each kind of failure: failures of single items and
/// rows are recovered where they occur, a cache that cannot be used is
/// done without, and only an unusable terminal is fatal.
pub open spec fn policy_of(kind: ErrorKind) -> Policy {
    match kind {
        ErrorKind::EnvironmentUnsupported => Policy::Fatal,
        ErrorKind::InputMissing => Policy::SkipItem,
        ErrorKind::DecodeFailed => Policy::SkipItem,
        ErrorKind::EncodeFailed => Policy::SkipRow,
        ErrorKind::CacheUnavailable => Policy::Proceed,
        ErrorKind::OutputClosed => Policy::ExitCleanly,
        ErrorKind::Interrupt => Policy::Interrupted,
    }
}

/// Tells what is done about a kind of failure.
pub fn policy_for(kind: ErrorKind) -> (policy: Policy)
    ensures
        policy == policy_of(kind),
{
    match kind {
        ErrorKind::EnvironmentUnsupported => Policy::Fatal,
        ErrorKind::InputMissing => Policy::SkipItem,
        ErrorKind::DecodeFailed => Policy::SkipItem,
        ErrorKind::EncodeFailed => Policy::SkipRow,
        ErrorKind::CacheUnavailable => Policy::Proceed,
        ErrorKind::OutputClosed => Policy::ExitCleanly,
        ErrorKind::Interrupt => Policy::Interrupted,
    }
}

/// Tells whether the user is told of a failure: of every one but a cache
/// that cannot be used and an output that nobody reads.
pub fn is_reported(kind: ErrorKind) -> (told: bool)
    ensures
        told == (kind != ErrorKind::CacheUnavailable && kind != ErrorKind::OutputClosed),
{
    match kind {
        ErrorKind::CacheUnavailable => false,
        ErrorKind::OutputClosed => false,
        _ => true,
    }
}

/// The status with which the run ends at once, for the failures that end
/// it: one for a fatal failure, zero where the output was closed, and 130
/// after an interrupt. None for the failures after which the run goes on.
pub fn exit_status(kind: ErrorKind) -> (status: Option<u8>)
    ensures
        status == match policy_of(kind) {
            Policy::Fatal => Some(1u8),
            Policy::ExitCleanly => Some(0u8),
            Policy::Interrupted => Some(INTERRUPT_STATUS),
            _ => None,
        },
{
    match policy_for(kind) {
        Policy::Fatal => Some(1),
        Policy::ExitCleanly => Some(0),
        Policy::Interrupted => Some(INTERRUPT_STATUS),
        _ => None,
    }
}

} // verus!
