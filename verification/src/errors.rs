use vstd::prelude::*;

verus! {

/// The first structural check that a block failed.
#[derive(Clone, Copy, Debug, PartialEq, Eq, Structural)]
pub enum InvalidReason {
    /// The declared parent is not present in the state manager.
    MissingParent,
    /// The declared height is not `parent.height + 1`.
    WrongHeight,
    /// The timestamp is behind the parent's timestamp.
    TimestampBehindParent,
    /// The timestamp is implausibly far ahead of the local observation time.
    TimestampTooFarAhead,
    /// The payload exceeds the configured size bound.
    OversizePayload,
    /// A block with the same identifier but different fields is already stored.
    ConflictingBlock,
    /// The block already carries the opposite terminal status.
    AlreadyDecided,
    /// The block is not `Accepted`, so the last-accepted pointer cannot
    /// refer to it.
    NotAccepted,
    /// The block's height is below the current last-accepted height, so
    /// accepting it would move the last-accepted pointer backward.
    BehindLastAccepted,
}

/// Errors surfaced by the virtual machine and its state manager.
#[derive(Clone, Copy, Debug, PartialEq, Eq, Structural)]
pub enum VmError {
    /// The requested block identifier is absent.
    NotFound,
    /// A structural block defect; the reason is the first failing check.
    ValidationError(InvalidReason),
    /// Backpressure from the pending-data queue; the caller should retry.
    QueueFull,
    /// The queue holds no payload, so there is nothing to build. A normal,
    /// non-error condition: the engine is expected to retry later.
    NoContentAvailable,
    /// The raw bytes are not a well-formed block encoding.
    DecodeError,
    /// The virtual machine is not initialized, or an operation would
    /// overflow a machine bound.
    InternalError,
}

} // verus!
