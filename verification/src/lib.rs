//! Tellus: parametric crop insurance accounting.
//!
//! Four cooperating contracts, each modelled as a verified state machine:
//! - [`pool`]: liquidity provider capital, shares, coverage locks and payouts;
//! - [`policy`]: the registry of farmer policies and their life cycle;
//! - [`oracle`]: whitelisted weather readings, their bounded history and medians;
//! - [`trigger`]: the evaluation of a policy against oracle readings.
//!
//! The host environment (ledger time, authorization, token transfers and
//! persistent storage) is kept outside this crate: every operation takes the
//! values it needs from the environment as arguments.

mod table;

pub mod oracle;
pub mod policy;
pub mod pool;
pub mod trigger;

pub use table::{keys_distinct, pair_values, pairs_map, seq_total};
