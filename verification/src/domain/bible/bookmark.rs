//! User bookmark for Bible verses.

use vstd::prelude::*;

verus! {

/// Bookmark color for visual categorization.
#[derive(Debug, Clone, Copy, PartialEq, Eq, Structural)]
pub enum BookmarkColor {
    Blue,
    Red,
    Green,
    Yellow,
    Purple,
    Orange,
}

impl Default for BookmarkColor {
    /// A bookmark is blue unless a colour is chosen.
    fn default() -> (color: Self)
        ensures
            color == BookmarkColor::Blue,
    {
        BookmarkColor::Blue
    }
}

} // verus!
