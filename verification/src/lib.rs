//! Core state management for a GitHub notification dashboard.
//!
//! The crate models the reconciliation logic that sits between background
//! network fetches and a rendering front end: per-account state machines
//! that merge freshly fetched inbox snapshots with locally applied
//! optimistic edits, track in-flight remote actions, decide when section
//! highlights light up, and schedule unattended refreshes.

pub mod account;
pub mod clock;
pub mod domain;
pub mod github;
pub mod laws;
pub mod scheduler;
pub mod search;
pub mod stats;
pub mod storage;
pub mod text;
