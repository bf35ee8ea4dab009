//! Step-by-step assembly of a transaction, checked for completeness at the end.

use vstd::prelude::*;
use crate::bitcoin_transaction::{BitcoinTransaction, LockTime, TxIn, TxOut};
use crate::version::Version;

verus! {

/// A field of a transaction that the builder must be given.
#[derive(Debug, Clone, Copy, PartialEq, Eq, Structural)]
pub enum TxField {
    Version,
    LockTime,
    Inputs,
    Outputs,
}

/// Why a builder could not produce a transaction.
#[derive(Debug, Clone, Copy, PartialEq, Eq, Structural)]
pub enum BuildError {
    /// The named field was never set.
    MissingField(TxField),
}

/// Gathers the fields of a transaction one at a time; `build` checks that
/// all four were given.
pub struct BitcoinTransactionBuilder {
    version: Option<Version>,
    lock_time: Option<LockTime>,
    inputs: Option<Vec<TxIn>>,
    outputs: Option<Vec<TxOut>>,
}

impl BitcoinTransactionBuilder {
    /// The version set so far.
    pub closed spec fn spec_version(self) -> Option<Version> {
        self.version
    }

    /// The lock time set so far.
    pub closed spec fn spec_lock_time(self) -> Option<LockTime> {
        self.lock_time
    }

    /// The inputs set so far.
    pub closed spec fn spec_inputs(self) -> Option<Vec<TxIn>> {
        self.inputs
    }

    /// The outputs set so far.
    pub closed spec fn spec_outputs(self) -> Option<Vec<TxOut>> {
        self.outputs
    }

    /// The first field, in the order version, lock time, inputs, outputs, that is unset.
    pub open spec fn spec_missing(self) -> Option<TxField> {
        if self.spec_version() is None {
            Some(TxField::Version)
        } else if self.spec_lock_time() is None {
            Some(TxField::LockTime)
        } else if self.spec_inputs() is None {
            Some(TxField::Inputs)
        } else if self.spec_outputs() is None {
            Some(TxField::Outputs)
        } else {
            None
        }
    }

    /// A builder with no field set.
    pub fn new() -> (r: Self)
        ensures
            r.spec_version() is None,
            r.spec_lock_time() is None,
            r.spec_inputs() is None,
            r.spec_outputs() is None,
    {
        BitcoinTransactionBuilder { version: None, lock_time: None, inputs: None, outputs: None }
    }

    /// Sets the version, replacing any earlier one.
    pub fn version(self, version: Version) -> (r: Self)
        ensures
            r.spec_version() == Some(version),
            r.spec_lock_time() == self.spec_lock_time(),
            r.spec_inputs() == self.spec_inputs(),
            r.spec_outputs() == self.spec_outputs(),
    {
        BitcoinTransactionBuilder { version: Some(version), ..self }
    }

    /// Sets the lock time, replacing any earlier one.
    pub fn lock_time(self, lock_time: LockTime) -> (r: Self)
        ensures
            r.spec_version() == self.spec_version(),
            r.spec_lock_time() == Some(lock_time),
            r.spec_inputs() == self.spec_inputs(),
            r.spec_outputs() == self.spec_outputs(),
    {
        BitcoinTransactionBuilder { lock_time: Some(lock_time), ..self }
    }

    /// Sets the inputs, replacing any earlier ones.
    pub fn inputs(self, inputs: Vec<TxIn>) -> (r: Self)
        ensures
            r.spec_version() == self.spec_version(),
            r.spec_lock_time() == self.spec_lock_time(),
            r.spec_inputs() == Some(inputs),
            r.spec_outputs() == self.spec_outputs(),
    {
        BitcoinTransactionBuilder { inputs: Some(inputs), ..self }
    }

    /// Sets the outputs, replacing any earlier ones.
    pub fn outputs(self, outputs: Vec<TxOut>) -> (r: Self)
        ensures
            r.spec_version() == self.spec_version(),
            r.spec_lock_time() == self.spec_lock_time(),
            r.spec_inputs() == self.spec_inputs(),
            r.spec_outputs() == Some(outputs),
    {
        BitcoinTransactionBuilder { outputs: Some(outputs), ..self }
    }

    /// The transaction made of the four fields set, or the first one missing.
    pub fn build(self) -> (r: Result<BitcoinTransaction, BuildError>)
        ensures
            self.spec_missing() matches Some(f) ==> r == Err::<BitcoinTransaction, BuildError>(
                BuildError::MissingField(f),
            ),
            self.spec_missing() is None ==> (r matches Ok(tx) && Some(tx.version)
                == self.spec_version() && Some(tx.lock_time) == self.spec_lock_time() && Some(
                tx.input,
            ) == self.spec_inputs() && Some(tx.output) == self.spec_outputs()),
    {
        let version = match self.version {
            Some(v) => v,
            None => return Err(BuildError::MissingField(TxField::Version)),
        };
        let lock_time = match self.lock_time {
            Some(t) => t,
            None => return Err(BuildError::MissingField(TxField::LockTime)),
        };
        let input = match self.inputs {
            Some(i) => i,
            None => return Err(BuildError::MissingField(TxField::Inputs)),
        };
        let output = match self.outputs {
            Some(o) => o,
            None => return Err(BuildError::MissingField(TxField::Outputs)),
        };
        Ok(BitcoinTransaction { version, lock_time, input, output })
    }
}

impl Default for BitcoinTransactionBuilder {
    fn default() -> (r: Self)
        ensures
            r.spec_missing() == Some(TxField::Version),
            r.spec_lock_time() is None,
            r.spec_inputs() is None,
            r.spec_outputs() is None,
    {
        Self::new()
    }
}

/// A builder that was given a version, a lock time and outputs but no inputs
/// is refused for the missing inputs; one that was given all four fields is
/// complete, so that `build` returns exactly the values given.
pub proof fn lemma_build_complete(b: BitcoinTransactionBuilder)
    ensures
        b.spec_version() is Some && b.spec_lock_time() is Some && b.spec_inputs() is None
            && b.spec_outputs() is Some ==> b.spec_missing() == Some(TxField::Inputs),
        b.spec_version() is Some && b.spec_lock_time() is Some && b.spec_inputs() is Some
            && b.spec_outputs() is Some ==> b.spec_missing() is None,
{
}

} // verus!
