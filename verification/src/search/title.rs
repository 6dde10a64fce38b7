//! Matching a query against the title of a document.

use vstd::prelude::*;
use crate::search::ranking::RankKey;
use crate::text::chars_of;

verus! {

/// The lower-case form of a text, as `str::to_lowercase` gives it.
pub uninterp spec fn lowercase_of(text: Seq<char>) -> Seq<char>;

/// `str::to_lowercase` returns the lower-case equivalent of a string, as
/// Unicode defines it; its result depends on the characters of the string
/// alone.
pub assume_specification[ str::to_lowercase ](text: &str) -> (lower: String)
    ensures
        lower@ == lowercase_of(text@),
;

/// Tells whether `text` begins with `prefix`, character for character.
pub fn starts_with(text: &Vec<char>, prefix: &Vec<char>) -> (found: bool)
    ensures
        found == prefix@.is_prefix_of(text@),
{
    if prefix.len() > text.len() {
        return false;
    }
    let mut i: usize = 0;
    while i < prefix.len()
        invariant
            i <= prefix.len() <= text.len(),
            forall|j: int| 0 <= j < i ==> prefix@[j] == text@[j],
        decreases prefix.len() - i,
    {
        if prefix[i] != text[i] {
            proof {
                if prefix@.is_prefix_of(text@) {
                    assert(text@.subrange(0, prefix@.len() as int)[i as int] == prefix@[i as int]);
                }
            }
            return false;
        }
        i += 1;
    }
    proof {
        assert(text@.subrange(0, prefix@.len() as int) =~= prefix@);
    }
    true
}

/// Whether the title begins with the query, letter case set aside: the
/// lower-case form of the title begins with that of the query.
pub open spec fn title_begins_with(title: Seq<char>, query: Seq<char>) -> bool {
    lowercase_of(query).is_prefix_of(lowercase_of(title))
}

/// Tells whether the title of a document begins with the query, letter case
/// set aside. Every title begins with the empty query.
pub fn has_title_prefix(title: &str, query: &str) -> (found: bool)
    ensures
        found == title_begins_with(title@, query@),
{
    let lower_title: String = title.to_lowercase();
    let lower_query: String = query.to_lowercase();
    let title_chars: Vec<char> = chars_of(lower_title.as_str());
    let query_chars: Vec<char> = chars_of(lower_query.as_str());
    starts_with(&title_chars, &query_chars)
}

/// The rank key of a song found for `query`: whether its title begins with
/// the query, the relevance that the engine gave it, and its view count.
pub fn song_key(query: &str, title: &str, relevance: u32, views: i32) -> (key: RankKey)
    ensures
        key == (RankKey { title_prefix: title_begins_with(title@, query@), relevance, views }),
{
    RankKey { title_prefix: has_title_prefix(title, query), relevance, views }
}

/// The rank key of a verse found by the engine: verses have no title and
/// no view count, so their relevance alone decides.
pub fn verse_key(relevance: u32) -> (key: RankKey)
    ensures
        key == (RankKey { title_prefix: false, relevance, views: 0 }),
{
    RankKey { title_prefix: false, relevance, views: 0 }
}

} // verus!
