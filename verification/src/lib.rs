//! Verified core of a terminal journal that stores dated plain-text
//! entries on disk, one file per date.
//!
//! The crate proves the entry list's navigation model, the storage
//! loading rules (suffix filter, date derivation, descending sort),
//! the date-to-file-name addressing scheme, the key dispatch of the
//! interactive browser, and the status-message lifetime. Reading the
//! storage directory, spawning the external editor and rendering are
//! left to the surrounding program, which hands the core plain values.

pub mod app;
pub mod commands;
pub mod entry;
pub mod order;
pub mod settings;
pub mod storage;
