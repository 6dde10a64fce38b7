//! User-specific Bible data: the colours of bookmarks and highlights.

pub mod bookmark;
pub mod highlight;

pub use bookmark::BookmarkColor;
pub use highlight::HighlightColor;
