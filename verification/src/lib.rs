//! Aggregates articles from several web sources into one time-ordered
//! syndication feed: per-source extraction from markup, date normalization,
//! merge-and-sort aggregation, and feed serialization.

pub mod aggregate;
pub mod content;
pub mod csoonline;
pub mod darkreading;
pub mod date;
pub mod extract;
pub mod krebs;
pub mod serialize;
