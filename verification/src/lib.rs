//! A personal activity log: a non-overlapping timeline of labeled time
//! intervals, with insertion that resolves temporal overlap and deletion
//! that can re-close the gap it leaves.
//!
//! The heart is `store`, whose mutations are specified exactly by
//! `spec_insert` and `spec_delete` over the interval values of `tti`;
//! `laws` proves the order invariant and the other store-wide
//! guarantees. `storage` gives the persisted line format its meaning,
//! and the remaining modules carry the interactive session's state
//! machines. Terminal painting, file reading and the command grammar
//! live with the surrounding application, which only hands plain values
//! across.

pub mod activity_tab;
pub mod commands;
pub mod component;
pub mod daily_report;
pub mod date_picker;
pub mod format;
pub mod history_list;
pub mod laws;
pub mod storage;
pub mod store;
pub mod string_ext;
pub mod textfield;
pub mod tti;
