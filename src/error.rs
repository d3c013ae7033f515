use vstd::prelude::*;

verus! {

/// Errors returned by the commitment pipeline.
#[derive(Debug, Clone, Copy, PartialEq, Eq, Structural)]
pub enum ElusivError {
    InvalidArgument,
    InvalidAmount,
    InvalidInstructionData,
    NonScalarValue,
    InvalidFeeVersion,
    InvalidBatchingRate,
    InvalidAccount,
    DuplicateValue,
    ComputationIsNotYetStarted,
    ComputationIsNotYetFinished,
    ComputationIsAlreadyFinished,
    QueueIsFull,
    QueueIsEmpty,
    BatchNotReady,
    NoRoomForCommitment,
    StatsError,
    Overflow,
}

} // verus!
