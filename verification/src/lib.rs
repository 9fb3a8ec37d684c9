//! Verified core of a US-equity fundamentals collector: domain values, URL
//! builders, response decoding, cross-source reconciliation and scheduling
//! decisions.

pub mod text;
pub mod domain;
pub mod flags;
pub mod net;
pub mod collectors;
pub mod reconcile;
pub mod grouping;
pub mod graham;
pub mod auth;
pub mod scheduler;
pub mod config;
pub mod pipeline;
pub mod store;
