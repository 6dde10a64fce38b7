//! Song charts: note names, chord transposition and ChordPro filters.

pub mod chart;
pub mod chordpro;
pub mod document;
pub mod laws;
pub mod listing;
pub mod pitch;
pub mod transpose;
