//! Text highlighting in Bible verses.

use vstd::prelude::*;

verus! {

/// Highlight color.
#[derive(Debug, Clone, Copy, PartialEq, Eq, Structural)]
pub enum HighlightColor {
    Yellow,
    Green,
    Blue,
    Pink,
    Orange,
    Purple,
}

impl Default for HighlightColor {
    /// A highlight is yellow unless a colour is chosen.
    fn default() -> (color: Self)
        ensures
            color == HighlightColor::Yellow,
    {
        HighlightColor::Yellow
    }
}

} // verus!
