//! Sidecar monitoring agent library: a line-oriented metric exposition
//! parser, a multi-destination relay policy, a remediation decision core,
//! and the shared instance-identity rule that ties the two loops together.

pub mod ascii;
pub mod bytestr;
pub mod config;
pub mod exposition;
pub mod instance;
pub mod poller;
pub mod relay;
pub mod sample;
pub mod token;
