//! A TCP port scanner's core: splitting the port space among workers,
//! walking a segment with a caller-supplied probe, merging and ordering the
//! findings, and naming the services behind the ports that answered.

pub mod decimal;
pub mod partition;
pub mod report;
pub mod request;
pub mod scan;
pub mod services;
