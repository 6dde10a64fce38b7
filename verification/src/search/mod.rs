//! Search: how many results a request gets, in which order ranked matches
//! come, and the word index behind exact-word lookups.

pub mod concordance;
pub mod limits;
pub mod ranking;
pub mod title;
pub mod words;
