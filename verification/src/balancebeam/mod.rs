//! The load balancer.

pub mod connection;
pub mod health;
pub mod limiter;
pub mod proxy;
pub mod upstream;
