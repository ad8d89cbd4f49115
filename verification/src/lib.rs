//! A small utility library: a fixed-capacity key/value cache with
//! arbitrary eviction, an application configuration record, a string
//! processing trait, and two free-standing string utilities.

pub mod cache;
pub mod config;
pub mod processor;
pub mod utils;
