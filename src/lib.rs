//! Service-health monitoring core: job identifiers, probe results, the
//! check-batch wire format, the agent's scheduler and batch sender, and the
//! broker's ingress rules.

pub mod ids;
pub mod wire;
pub mod jobs;
pub mod schedule;
pub mod config;
pub mod sender;
pub mod codec;
pub mod frame;
pub mod broker;
