//! Offline-first learning progress: the in-memory state of a learner's
//! progress, downloaded course packages and pending synchronisation work,
//! with every operation verified against its contract.

pub mod auth;
pub mod catalog;
pub mod clock;
pub mod error;
pub mod laws;
pub mod lemmas;
pub mod listing;
pub mod metadata;
pub mod model;
pub mod offline;
pub mod outbox;
pub mod progress;
pub mod records;
pub mod reports;
pub mod table;
pub mod text;
