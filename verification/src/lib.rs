//! A local media indexer: classifies video file paths into a typed catalog
//! (shows, seasons, episodes, movies, extras, generic videos), identifies file
//! content by a sparse-sampling hash, and maintains a relational store of
//! indexes, items, versions and parts with uniqueness and referential
//! invariants.

pub mod api;
pub mod classifier;
pub mod config;
pub mod connect_code;
pub mod dates;
pub mod fingerprint;
pub mod http;
pub mod image;
pub mod models;
pub mod scanner;
pub mod store;
pub mod text;
