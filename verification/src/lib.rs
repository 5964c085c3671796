//! Two independent on-ledger state registries: a contributor registry
//! (principal -> profile + reputation score) and a vesting wallet
//! (beneficiary -> token-release schedule).
//!
//! Both are keyed stores whose mutations are gated by explicit
//! authorization and a single admin principal. The ledger runtime that
//! supplies durable storage, the current ledger time, and cryptographic
//! authentication of callers is an external collaborator: operations here
//! take the current time and an authentication capability as explicit
//! arguments and return the decision as a plain value.

pub mod contributor;
pub mod principal;
pub mod vesting;
