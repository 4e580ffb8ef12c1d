//! Scrape-to-reconciliation pipeline for a directory of arcade locations.
//!
//! The library holds the parts of the pipeline that decide things, each with
//! its contract:
//! - `names`: the canonical form of a scraped name;
//! - `extract`: reading the store list out of a rendered locator page;
//! - `snapshot`: the directory as loaded at the start of a run;
//! - `reconcile`: which addresses need geocoding, and the updates, creations
//!   and closures a scrape calls for;
//! - `rerun`: what the store holds after a run, and why a second run over the
//!   same scrape changes nothing;
//! - `geocode` and `readiness`: when to retry a geocoding request, and when the
//!   rendered page is ready to be read;
//! - `query` and `error`: checks on directory queries and their errors.
pub mod text;
pub mod names;
pub mod extract;
pub mod record;
pub mod snapshot;
pub mod reconcile;
pub mod rerun;
pub mod geocode;
pub mod readiness;
pub mod query;
pub mod error;
