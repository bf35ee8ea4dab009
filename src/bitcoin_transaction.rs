//! The unsigned Bitcoin transaction and the records it is made of.

use vstd::prelude::*;
use crate::version::Version;

verus! {

/// Lock-time values below this threshold are block heights; values at or
/// above it are Unix timestamps in seconds.
pub const LOCK_TIME_THRESHOLD: u32 = 500_000_000;

/// A lock-time value that was out of range for the requested interpretation.
#[derive(Debug, Clone, Copy, PartialEq, Eq, Structural)]
pub enum LockTimeError {
    /// A block height at or above the threshold.
    InvalidHeight(u32),
    /// A timestamp below the threshold.
    InvalidTime(u32),
}

/// An absolute lock time, held as its consensus value: a block height when
/// below the threshold, a Unix time otherwise.
#[derive(Debug, Clone, Copy, PartialEq, Eq, Structural)]
pub struct LockTime {
    value: u32,
}

impl LockTime {
    /// The consensus value of this lock time.
    pub closed spec fn spec_consensus(self) -> u32 {
        self.value
    }

    /// The lock time with the given consensus value; every value is one.
    pub fn from_consensus(n: u32) -> (r: LockTime)
        ensures
            r.spec_consensus() == n,
    {
        LockTime { value: n }
    }

    /// A lock time at a block height; fails unless the height is below the threshold.
    pub fn from_height(n: u32) -> (r: Result<LockTime, LockTimeError>)
        ensures
            n < LOCK_TIME_THRESHOLD ==> (r matches Ok(t) && t.spec_consensus() == n),
            n >= LOCK_TIME_THRESHOLD ==> r == Err::<LockTime, LockTimeError>(
                LockTimeError::InvalidHeight(n),
            ),
    {
        if n < LOCK_TIME_THRESHOLD {
            Ok(LockTime { value: n })
        } else {
            Err(LockTimeError::InvalidHeight(n))
        }
    }

    /// A lock time at a Unix time; fails if the time is below the threshold.
    pub fn from_time(n: u32) -> (r: Result<LockTime, LockTimeError>)
        ensures
            n >= LOCK_TIME_THRESHOLD ==> (r matches Ok(t) && t.spec_consensus() == n),
            n < LOCK_TIME_THRESHOLD ==> r == Err::<LockTime, LockTimeError>(
                LockTimeError::InvalidTime(n),
            ),
    {
        if n >= LOCK_TIME_THRESHOLD {
            Ok(LockTime { value: n })
        } else {
            Err(LockTimeError::InvalidTime(n))
        }
    }

    /// The consensus value of this lock time.
    pub fn to_consensus_u32(&self) -> (r: u32)
        ensures
            r == self.spec_consensus(),
    {
        self.value
    }

    /// Whether this lock time is a block height.
    pub fn is_block_height(&self) -> (r: bool)
        ensures
            r == (self.spec_consensus() < LOCK_TIME_THRESHOLD),
    {
        self.value < LOCK_TIME_THRESHOLD
    }
}

/// A reference to an output of an earlier transaction.
#[derive(Debug, Clone, PartialEq, Eq)]
pub struct OutPoint {
    /// The id of the transaction that holds the output.
    pub txid: [u8; 32],
    /// The index of the output in that transaction.
    pub vout: u32,
}

/// A transaction input: the output it spends, its unlocking script and its sequence number.
#[derive(Debug, Clone, PartialEq, Eq)]
pub struct TxIn {
    pub previous_output: OutPoint,
    pub script_sig: Vec<u8>,
    pub sequence: u32,
}

/// A transaction output: an amount and the script that locks it.
#[derive(Debug, Clone, PartialEq, Eq)]
pub struct TxOut {
    pub value: u64,
    pub script_pubkey: Vec<u8>,
}

/// An unsigned transaction; the order of the inputs and of the outputs matters.
#[derive(Debug, Clone, PartialEq, Eq)]
pub struct BitcoinTransaction {
    pub version: Version,
    pub lock_time: LockTime,
    pub input: Vec<TxIn>,
    pub output: Vec<TxOut>,
}

} // verus!
