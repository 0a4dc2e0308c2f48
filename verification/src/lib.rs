//! A constant-product exchange: pool accounting, pool registry, routing and
//! cached paths, with the arithmetic they rest on.

pub mod error;
pub mod factory;
pub mod flashswap;
pub mod id;
pub mod laws;
pub mod lock;
pub mod math;
pub mod message;
pub mod naming;
pub mod oyl_factory;
pub mod oyl_pool;
pub mod parcel;
pub mod path_provider;
pub mod pool;
pub mod pool_info;
pub mod route;
pub mod router;
pub mod storable;
pub mod swap;
pub mod token;
pub mod wide;
