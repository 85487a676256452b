//! A document persistence and consistency engine.
//!
//! Text documents live in four stores that fail independently and share no
//! transaction: the content store holds one blob of text per document, the
//! metadata store the records of documents and folders, the version manager
//! numbered snapshots of contents, and the search index the words of each
//! document. The engine runs every operation as a fixed sequence of steps
//! over these stores and fixes, step by step, what a failure means.
//!
//! Every function carries a contract, and Verus proves it of the function's
//! body. The exceptions say so where they stand: two functions that call an
//! outside crate, and two of std that are used as documented. The stores
//! hold their data in memory; identifiers and the current time are handed
//! in by the caller, so that an operation is a function of what it is given.
//! Times are milliseconds since the Unix epoch.
//!
//! - [`text`]: word and character counts, excerpts.
//! - [`naming`]: default titles.
//! - [`paths`]: where a document's content is stored.
//! - [`content`], [`metadata`], [`versions`], [`search`]: the four stores.
//! - [`pipeline`]: the steps of a content update and their failure policy.
//! - [`engine`]: the operations over the four stores.
//! - [`tags`], [`sessions`], [`accounts`]: what surrounds the documents.
//! - [`auth`], [`config`], [`error`], [`export`], [`models`], [`strings`]:
//!   shared rules, records and utilities.

pub mod accounts;
pub mod auth;
pub mod config;
pub mod content;
pub mod engine;
pub mod error;
pub mod export;
pub mod metadata;
pub mod models;
pub mod naming;
pub mod paths;
pub mod pipeline;
pub mod search;
pub mod sessions;
pub mod strings;
pub mod tags;
pub mod text;
pub mod versions;
