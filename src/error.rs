//! The ways in which an operation of the relay fails.
use vstd::prelude::*;

verus! {

/// Every failure that the relay reports; an operation stops at the first.
#[derive(Clone, Copy, Debug, PartialEq, Eq, Structural)]
pub enum Error {
    AlreadyInitialized,
    MissingBlockHeight,
    InvalidHeaderSize,
    DuplicateBlock,
    OutdatedBlock,
    PrevBlock,
    InvalidChainID,
    LowDiff,
    DiffTargetHeader,
    MalformedTxid,
    BitcoinConfirmations,
    ParachainConfirmations,
    OngoingFork,
    MalformedMerkleProof,
    InvalidMerkleProof,
    NoData,
    Invalid,
    Shutdown,
    InvalidTxid,
    InsufficientValue,
    MalformedTransaction,
    InvalidPayment,
    InvalidOutputFormat,
    InvalidOpReturn,
    InvalidTxVersion,
    UnknownErrorcode,
    ForkIdNotFound,
    BlockNotFound,
    AlreadyReported,
    UnauthorizedRelayer,
    ChainCounterOverflow,
    BlockHeightOverflow,
    ChainsUnderflow,
    EndOfFile,
    MalformedHeader,
    MalformedWitnessOutput,
    MalformedP2PKHOutput,
    MalformedP2SHOutput,
    MalformedOpReturnOutput,
    UnsupportedOutputFormat,
    UnsupportedInputFormat,
    NoDataEmpty,
    InvalidBtcHash,
    InvalidScript,
    InvalidBtcAddress,
    ArithmeticOverflow,
    ArithmeticUnderflow,
    RelayerNotAuthorized,
}

} // verus!
