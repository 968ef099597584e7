use vstd::prelude::*;

verus! {

/// Failures of the Q64.64 fixed-point division.
#[derive(Clone, Copy, Debug, PartialEq, Eq, Structural)]
pub enum ArithmeticError {
    DivisorZero,
    RoundingError,
}

/// Failures of applying or decoding one event log.
#[derive(Clone, Copy, Debug, PartialEq, Eq, Structural)]
pub enum EventLogError {
    MissingBlockNumber,
    MissingLogIndex,
    AlreadySynced,
    InvalidEventSignature,
    MalformedPayload,
    /// The delta would take a reserve below zero or past 256 bits.
    ReserveOutOfRange,
}

/// Failures of a simulated swap.
#[derive(Clone, Copy, Debug, PartialEq, Eq, Structural)]
pub enum SwapSimulationError {
    /// An intermediate product or a resulting reserve falls outside its
    /// width.
    Overflow,
    /// The input side has no reserve to convert against.
    ZeroReserve,
}

/// Failures of a batched token-metadata lookup.
#[derive(Clone, Copy, Debug, PartialEq, Eq, Structural)]
pub enum CurrencyError {
    InvalidBatchResponse,
}

/// Failures of persisting or loading a checkpoint.
#[derive(Clone, Copy, Debug, PartialEq, Eq, Structural)]
pub enum CheckpointError {
    IOFailure,
    SerializationFailure,
}

} // verus!
