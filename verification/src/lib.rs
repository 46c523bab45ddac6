//! An in-process, time-indexed store for calendar items.
//!
//! The store holds calendar events and reminders, keeps a per-day index over
//! one supported epoch, and rejects items whose time intervals overlap an
//! item already stored. A small state machine describes how an access
//! coordinator serializes mutations against the store, and a flattened
//! record form supports snapshotting the store to durable storage.

pub mod cache;
pub mod coordinator;
pub mod error;
pub mod indexing;
pub mod laws;
pub mod model;
mod outside;
pub mod persist;
pub mod time;
