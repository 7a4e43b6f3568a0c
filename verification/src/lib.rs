//! Bounded-concurrency crawl-and-cache pipeline for vendor product catalogs:
//! a keyed record store with a completeness-biased merge rule, and the
//! decision logic of a resumable, concurrency-capped artifact downloader.

pub mod downloader;
pub mod links;
pub mod outcome;
pub mod record;
pub mod sdi;
pub mod store;
pub mod table;
pub mod tasks;
pub mod text;
pub mod vendor;
