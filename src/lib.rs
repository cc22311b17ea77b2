//! Resolves the live status of a fixed set of elevators from the features
//! that an accessibility service reports for each location.

pub mod equipment;
pub mod json;
pub mod notify;
pub mod resolve;
pub mod retry;
