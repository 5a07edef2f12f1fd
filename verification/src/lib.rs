//! A small proof-of-work blockchain: blocks, pending transactions, mining,
//! chain validation, and consensus by the longest valid chain.
pub mod order;
pub mod sorted_set;
pub mod transaction;
pub mod json;
pub mod hasher;
pub mod block;
pub mod text;
pub mod blockchain;
pub mod consensus;
pub mod types;
pub mod api;
