//! `apt-lists` — read-only, repository-aware companion to `apt list`.
//!
//! The library is split into:
//!
//! * [`text`] — character-level string helpers,
//! * [`apt`] — the in-memory result of one pass over the APT cache,
//! * [`repository`] — repository identity from package-index metadata,
//! * [`query`] — installed/all/package queries with repository filtering,
//! * [`output`] — human tables and JSON documents,
//! * [`cli`] — the options and the top-level mode,
//! * [`report`] — what one invocation produces from the options and the scan,
//! * [`laws`] — properties that span several operations,
//! * [`guarantees`] — what the listings, tables, JSON documents and selectors
//!   answer, stated over their inputs,
//! * [`error`] — typed errors.
pub mod text;
pub mod error;
pub mod repository;
pub mod apt;
pub mod query;
pub mod output;
pub mod cli;
pub mod report;
pub mod laws;
pub mod guarantees;
