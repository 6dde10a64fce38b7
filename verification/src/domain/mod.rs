//! Domain types of the backend.

pub mod bible;
