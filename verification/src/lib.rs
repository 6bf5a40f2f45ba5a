//! The core of a proxy for MCP sessions: the stores of targets and
//! policies that a control plane keeps up to date, the client side of the
//! incremental configuration protocol, the evaluation of allow-rules, and
//! the routing of each call of a session.

pub mod names;
pub mod outbound;
pub mod proto;
pub mod rbac;
pub mod relay;
pub mod xds;
