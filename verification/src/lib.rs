//! Folder-activity tracking engine for a video upload watcher.
//!
//! The library groups files that appear in the same folder in close
//! succession into upload batches, drives each batch through the
//! `Uploading -> Completed -> Signed` lifecycle, and decides which
//! notifications the surrounding application must emit.  Every function
//! here is verified; the surrounding process (filesystem watcher, disk
//! persistence, notification delivery) supplies plain values and performs
//! the effects the library asks for.

pub mod batch;
pub mod config;
pub mod engine;
pub mod filter;
pub mod laws;
pub mod outside;
