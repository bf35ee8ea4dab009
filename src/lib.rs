//! Unsigned transaction models for a Bitcoin-style chain and a NEAR-style
//! chain, with their byte-exact wire codecs.

pub mod version;
pub mod bitcoin_transaction;
pub mod bitcoin_transaction_builder;
pub mod near_types;
pub mod actions;
pub mod binary;
pub mod decimal;
