//! Core engine of a sound-metadata database curator.
//!
//! The library models a table of audio-file metadata records and
//! verifies the rules that decide which records are duplicates, which
//! single record of each duplicate group is kept, and how a bulk
//! find/replace over one column behaves.  An unverified shell owns
//! the database connections and the window; it hands the engine plain
//! snapshots and receives plain values back.
//!
//! The pieces, leaves first:
//! - [`text`], [`order`]: substring search, substring replacement and
//!   lexicographic ordering over character sequences, with their laws;
//! - [`record`]: records, rows and table snapshots, with the column
//!   lookup and the gateway-side listing of visible columns;
//! - [`rules`]: tie-break rules and the strict total order a rule
//!   list induces on the rows of a fixed table;
//! - [`grouping`]: the duplicate grouping engine — partition, rank,
//!   flag all but the keeper — with the one-keeper-per-group proof;
//! - [`tags`]: the tag matcher, proved independent of tag order;
//! - [`compare`]: the comparison matcher against a second database;
//! - [`removal`]: the removal set keyed by record id, its idempotent
//!   merge, and the thinning pass;
//! - [`replace`]: counting and replacing over one column, and the
//!   two-phase session that refuses a blind replacement;
//! - [`aggregate`]: one full scan over whichever detectors are
//!   enabled, merged into one removal set with status text;
//! - [`coordinator`]: the capacity-one result channel that keeps the
//!   interactive loop from dispatching overlapping scans;
//! - [`config`], [`app_state`], [`presets`]: the per-detector
//!   configuration, the application state with its editors, and the
//!   stock tag and keeper-priority presets.

pub mod aggregate;
pub mod app_state;
pub mod compare;
pub mod config;
pub mod coordinator;
pub mod error;
pub mod grouping;
pub mod order;
pub mod presets;
pub mod record;
pub mod removal;
pub mod replace;
pub mod rules;
pub mod tags;
pub mod text;

pub use error::EngineError;
pub use record::FileRecord;
pub use record::Table;
pub use record::TableRow;
pub use removal::remove_duplicates;
pub use removal::RemovalSet;
