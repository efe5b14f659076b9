//! Lifecycle and settlement of staking networks.
//!
//! A network is created against a paid lock, tracked while it runs, and
//! finally dissolved: its pooled currency is shared out among its stakers,
//! the owner gets back what is left of the lock, and every record that
//! belongs to the network is removed.
//!
//! - [`apportion`], [`claims`], [`construction`]: sharing a pot out by
//!   weights with nothing lost, and the proof that this can always be done in
//!   exactly one way.
//! - [`fixed`], [`refund`]: what is returned of the owner's lock.
//! - [`evict`], [`prune`]: which network makes room for a new one.
//! - [`network`], [`scoped`], [`accounts`], [`ledger`]: the recorded state.
//! - [`settle`], [`registration`]: dissolving and registering a network.
//! - [`guard`], [`migration`], [`weight`]: one-shot changes of the stored
//!   state, and what they cost.

pub mod accounts;
pub mod apportion;
pub mod claims;
pub mod construction;
pub mod evict;
pub mod fixed;
pub mod guard;
pub mod ledger;
pub mod migration;
pub mod network;
pub mod prune;
pub mod refund;
pub mod registration;
pub mod scoped;
pub mod settle;
pub mod sums;
pub mod weight;
