//! Automated gallery archiver with a verified core.
//!
//! The library holds the decision logic of a gallery download/import
//! pipeline: a bounded-concurrency job orchestrator with duplicate-job
//! rejection, a diff-based tag-translation cache that reconciles a local
//! store against a versioned upstream dataset, and the pure transform that
//! maps gallery metadata into catalog records. All I/O (network fetch,
//! archive files, the catalog store, the HTTP surface) lives outside the
//! library and hands plain values in and out.

pub mod api;
pub mod config;
pub mod cover;
pub mod manager;
pub mod mapper;
pub mod tag_db;
pub mod text;
