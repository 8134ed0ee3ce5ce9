//! An escalation-game oracle: bonded disputes over the outcome of a data
//! request, with doubling bonds per round, a final arbitrator above a
//! configured threshold, and a proportional payout of the stakes.
pub mod contract;
pub mod data_request;
pub mod error;
pub mod ledger;
pub mod math;
pub mod resolution_window;
pub mod token;
pub mod types;
