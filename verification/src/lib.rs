//! The logic of the Revelation backend: what the server decides by itself,
//! apart from the database and the web framework around it.
//!
//! - [`songbook`]: note names, transposition of chord charts and key labels,
//!   the ChordPro filters, and what transposition keeps.
//! - [`search`]: limits, the order of ranked results, and the word index
//!   with its exact-word lookup.
//! - [`config`], [`middleware`], [`health`], [`domain`], [`loader`]: the
//!   settings of the server and the small types around it.
//! - [`text`], [`decimal`]: texts as character sequences and decimal
//!   numerals, on which the rest is built.

pub mod config;
pub mod decimal;
pub mod domain;
pub mod health;
pub mod loader;
pub mod middleware;
pub mod search;
pub mod songbook;
pub mod text;
