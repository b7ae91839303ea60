//! A verified single-asset staking ledger.
//!
//! Users deposit a staking asset and accrue a one-shot, proportional amount
//! of a reward asset, which they withdraw together with their deposit. The
//! crate holds the accounting engine alone: reward accrual, a global
//! reservation of promised rewards checked against the pool's real holdings,
//! and the per-user balance transitions, all with proved contracts.
//!
//! The host platform (message dispatch, persistent storage, the asset
//! transfer capability itself) stays outside: each operation takes the
//! ledger state by exclusive reference together with any externally read
//! balance, and returns the event the host must emit. State is committed in
//! full before the host performs any transfer, so a reentrant call observes
//! a consistent ledger.

pub mod errors;
pub mod events;
pub mod ledger;
pub mod positions;
pub mod rewards;
