//! Shared state-management building blocks for on-chain financial components:
//! a versioned configuration store, a service-status registry, a
//! transaction-scoped cache and a keyed amount aggregator.

pub mod amount_group;
pub mod cache;
pub mod config_manager;
pub mod ordered_map;
pub mod service_manager;
pub mod service_status;
pub mod staking_engine_config;
pub mod time;
