//! Adaptive dispatch core of a layer-7 reverse proxy: worker-selection
//! policies, per-policy latency telemetry and the controller decisions that
//! switch between policies.

pub mod balancing_algorithms;
pub mod control;
pub mod dispatch;
pub mod least_connections;
pub mod metrics;
pub mod text;
pub mod worker;

pub use worker::Worker;
