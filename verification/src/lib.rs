//! Payload encoding and transaction assembly for a wallet.
//!
//! The crate has two halves that share one byte-level wire contract:
//! a self-describing codec for nested structured values, and a builder
//! that prices, encodes and signs a single transaction.

pub mod serializer;
pub mod crypto;
pub mod api;
pub mod fee;
pub mod transaction;
pub mod transaction_builder;
pub mod utf8;
