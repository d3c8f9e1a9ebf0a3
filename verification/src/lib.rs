//! A verified data-access layer for a single collection of quiz documents.
//!
//! The library models the collection explicitly: [`store::QuizStore`] holds the
//! persisted documents and exposes one verified method per query shape
//! (fetch-by-id, full-text search, create, edit, delete, list-all,
//! list-recent, bulk-delete-by-tag).  Identifier strings are validated and
//! generated by the hex codec in [`ids`], records round-trip through the
//! generic document form in [`codec`], and search relevance is defined in
//! [`search`].  An unverified gateway that speaks to a real document store can
//! reuse the same codecs and contracts.

pub mod codec;
pub mod config;
pub mod errors;
pub mod ids;
pub mod search;
pub mod store;
