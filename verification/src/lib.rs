//! A verified catalog of asset directories: discovery heuristics, an in-memory
//! store with unique paths and tombstones, and a paginated query engine.

pub mod asset;
pub mod catalog;
pub mod config;
pub mod discovery;
pub mod laws;
pub mod manager;
pub mod model;
pub mod paging;
pub mod pattern;
pub mod query;
pub mod scan_laws;
pub mod scanner;
pub mod tags;
pub mod text;
