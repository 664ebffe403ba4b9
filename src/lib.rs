pub mod clock;
pub mod config;
pub mod job;
pub mod judge;
pub mod outcome;
pub mod query;
pub mod ranking;
pub mod store;
