//! The failures that stop an operation for good.

use vstd::prelude::*;

verus! {

/// A breach of the rules that the drivers around this crate are held to, or
/// an event or snapshot that cannot be read. The operation that reports one
/// has changed nothing, unless its contract says otherwise.
#[derive(Clone, Copy, Debug, PartialEq, Eq, Structural)]
pub enum ProtocolViolation {
    /// The log record lacks its transaction hash or its log index.
    UnfinalizedLog,
    /// The event is already waiting to be processed.
    DuplicatePendingLog,
    /// The event was processed before.
    LogAlreadyProcessed,
    /// The event is not waiting to be processed.
    UnknownLog,
    /// The block was skipped before.
    BlockAlreadySkipped,
    /// There is no suspended state to resume.
    NotSuspended,
    /// The bytes are not a snapshot.
    MalformedSnapshot,
    /// The bytes are a snapshot of a version that this crate does not read.
    UnsupportedSnapshotVersion,
    /// The log record has too few topics to announce a job.
    MissingTopic,
    /// The job identifier of the event is not a 256-bit hexadecimal number.
    InvalidJobId,
    /// The scheduling parameter of the event is not a 256-bit hexadecimal
    /// number.
    InvalidSchedule,
    /// The scheduling parameter of the event does not fit in 64 bits.
    ScheduleOutOfRange,
}

} // verus!
