//! The search document of a song.
//!
//! A song is searched by its plain text and shown in lists by its first
//! line. Both are made from the content of the song and are never out of
//! date: a document is built from its content in one step, and new content
//! replaces all three parts at once.

use vstd::prelude::*;
use crate::songbook::chordpro::{first_lyric_line, lyrics};
use crate::songbook::chordpro::{extract_first_line, strip_chords};

verus! {

/// The content of a song with its plain text and its first line.
pub struct SongDocument {
    content: String,
    content_plain: String,
    first_line: String,
}

impl SongDocument {
    #[verifier::type_invariant]
    spec fn is_up_to_date(self) -> bool {
        &&& self.content_plain@ == lyrics(self.content@, false)
        &&& self.first_line@ == first_lyric_line(lyrics(self.content@, false))
    }

    /// The content of the song, as a sequence of characters.
    pub closed spec fn text(&self) -> Seq<char> {
        self.content@
    }

    /// Builds the search document of a song from its content.
    #[must_use]
    pub fn new(content: String) -> (document: Self)
        ensures
            document.text() == content@,
    {
        let content_plain: String = strip_chords(content.as_str());
        let first_line: String = extract_first_line(content.as_str());
        SongDocument { content, content_plain, first_line }
    }

    /// Replaces the content of the song, and with it the plain text and
    /// the first line.
    pub fn set_content(&mut self, content: String)
        ensures
            final(self).text() == content@,
    {
        *self = SongDocument::new(content);
    }

    /// The content of the song: the chart with its chords.
    pub fn content(&self) -> (content: &str)
        ensures
            content@ == self.text(),
    {
        self.content.as_str()
    }

    /// The plain text of the song: its content without the chords.
    pub fn content_plain(&self) -> (plain: &str)
        ensures
            plain@ == lyrics(self.text(), false),
    {
        proof {
            use_type_invariant(self);
        }
        self.content_plain.as_str()
    }

    /// The first line of lyrics of the song.
    pub fn first_line(&self) -> (line: &str)
        ensures
            line@ == first_lyric_line(lyrics(self.text(), false)),
    {
        proof {
            use_type_invariant(self);
        }
        self.first_line.as_str()
    }
}

} // verus!
