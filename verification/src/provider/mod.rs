//! Deterministic providers of the ports.

pub mod caching;
pub mod developer;
pub mod hint;
pub mod mock;
pub mod routing;
pub mod scope;
pub mod skill;
pub mod warmup;
