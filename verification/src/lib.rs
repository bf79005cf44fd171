//! A connect-scan engine whose scheduling decisions are proved.
//!
//! The crate holds the rules of the scan and leaves the network to its caller:
//! the caller opens connections and reports what happened, and the types here
//! decide what is probed next, what counts as open and when the scan is over.

pub mod address;
pub mod aggregate;
pub mod budget;
pub mod digest;
pub mod port_strategy;
pub mod probe;
pub mod scanner;
pub mod scheduler;
pub mod socket_iterator;
