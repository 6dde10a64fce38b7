//! Song listings and song updates: the order of a listing and the text of
//! the statement that updates a song.

use vstd::prelude::*;
use crate::decimal::{decimal, push_decimal};
use crate::text::{chars_of, push_range, string_of};

verus! {

/// The orders in which songs can be listed.
#[derive(Debug, Clone, Copy, PartialEq, Eq, Structural)]
pub enum SongSortBy {
    Title,
    Number,
    ViewsDesc,
    FavoritesDesc,
    RecentlyAdded,
    HasChordsFirst,
    NoChordsFirst,
}

/// The `ORDER BY` clause of each listing order. Every order but the most
/// recent first falls back on the title.
pub open spec fn order_clause(sort: SongSortBy) -> Seq<char> {
    match sort {
        SongSortBy::Title => "s.title ASC"@,
        SongSortBy::Number => "s.number ASC NULLS LAST, s.title ASC"@,
        SongSortBy::ViewsDesc => "s.views_count DESC, s.title ASC"@,
        SongSortBy::FavoritesDesc => "s.favorites_count DESC, s.title ASC"@,
        SongSortBy::RecentlyAdded => "s.created_at DESC"@,
        SongSortBy::HasChordsFirst => "s.has_chords DESC, s.title ASC"@,
        SongSortBy::NoChordsFirst => "s.has_chords ASC, s.title ASC"@,
    }
}

/// The `ORDER BY` clause that lists songs in the order `sort`.
pub fn order_by_clause(sort: SongSortBy) -> (clause: &'static str)
    ensures
        clause@ == order_clause(sort),
{
    match sort {
        SongSortBy::Title => "s.title ASC",
        SongSortBy::Number => "s.number ASC NULLS LAST, s.title ASC",
        SongSortBy::ViewsDesc => "s.views_count DESC, s.title ASC",
        SongSortBy::FavoritesDesc => "s.favorites_count DESC, s.title ASC",
        SongSortBy::RecentlyAdded => "s.created_at DESC",
        SongSortBy::HasChordsFirst => "s.has_chords DESC, s.title ASC",
        SongSortBy::NoChordsFirst => "s.has_chords ASC, s.title ASC",
    }
}

/// The assignments of an update that carries a new title: parameter 2.
pub open spec fn title_assignment(with_title: bool) -> Seq<char> {
    if with_title {
        ", title = $"@ + decimal(2)
    } else {
        Seq::empty()
    }
}

/// The assignments of an update that carries new content: the content, its
/// plain text and its first line, as three parameters in a row of which
/// `first` is the first.
pub open spec fn content_assignments(with_content: bool, first: nat) -> Seq<char> {
    if with_content {
        ", content = $"@ + decimal(first) + ", content_plain = $"@ + decimal(first + 1)
            + ", first_line = $"@ + decimal(first + 2)
    } else {
        Seq::empty()
    }
}

/// The statement that updates a song. Parameter 1 is the id of the song;
/// the title, where the update carries one, is parameter 2, and the
/// parameters of the content follow.
pub open spec fn update_statement_text(with_title: bool, with_content: bool) -> Seq<char> {
    "UPDATE songs SET updated_at = NOW()"@ + title_assignment(with_title) + content_assignments(
        with_content,
        if with_title {
            3
        } else {
            2
        },
    ) + " WHERE id = $1"@
}

fn push_text(out: &mut Vec<char>, text: &str)
    ensures
        final(out)@ == old(out)@ + text@,
{
    let chars: Vec<char> = chars_of(text);
    push_range(out, &chars, 0, chars.len());
    assert(chars@.subrange(0, chars.len() as int) =~= chars@);
}

/// Writes the statement that updates a song, with an assignment for the
/// title where `with_title` is set and for the content, its plain text and
/// its first line where `with_content` is set.
pub fn update_statement(with_title: bool, with_content: bool) -> (statement: String)
    ensures
        statement@ == update_statement_text(with_title, with_content),
{
    let mut out: Vec<char> = Vec::new();
    let mut param_count: u64 = 1;
    push_text(&mut out, "UPDATE songs SET updated_at = NOW()");
    if with_title {
        param_count += 1;
        push_text(&mut out, ", title = $");
        push_decimal(&mut out, param_count);
    }
    let ghost head = out@;
    assert(head =~= "UPDATE songs SET updated_at = NOW()"@ + title_assignment(with_title));
    if with_content {
        param_count += 1;
        push_text(&mut out, ", content = $");
        push_decimal(&mut out, param_count);
        param_count += 1;
        push_text(&mut out, ", content_plain = $");
        push_decimal(&mut out, param_count);
        param_count += 1;
        push_text(&mut out, ", first_line = $");
        push_decimal(&mut out, param_count);
    }
    assert(out@ =~= head + content_assignments(
        with_content,
        if with_title {
            3
        } else {
            2
        },
    ));
    push_text(&mut out, " WHERE id = $1");
    string_of(&out)
}

} // verus!
