//! Loading Bible text: book abbreviations, verse numbering and the count
//! of what was loaded.

use vstd::prelude::*;
use vstd::string::StrSliceExecFns;
use crate::decimal::{decimal, push_decimal};
use crate::text::{chars_of, push_range, string_of};

verus! {

/// The abbreviations of the 66 books as the files write them, each with
/// the number of its book.
pub open spec fn book_mapping() -> Seq<(Seq<char>, i16)> {
    seq![
        ("gn"@, 1i16),
        ("ex"@, 2i16),
        ("lv"@, 3i16),
        ("nm"@, 4i16),
        ("dt"@, 5i16),
        ("js"@, 6i16),
        ("jud"@, 7i16),
        ("rt"@, 8i16),
        ("1sm"@, 9i16),
        ("2sm"@, 10i16),
        ("1kgs"@, 11i16),
        ("2kgs"@, 12i16),
        ("1ch"@, 13i16),
        ("2ch"@, 14i16),
        ("ezr"@, 15i16),
        ("ne"@, 16i16),
        ("et"@, 17i16),
        ("job"@, 18i16),
        ("ps"@, 19i16),
        ("prv"@, 20i16),
        ("ec"@, 21i16),
        ("so"@, 22i16),
        ("is"@, 23i16),
        ("jr"@, 24i16),
        ("lm"@, 25i16),
        ("ez"@, 26i16),
        ("dn"@, 27i16),
        ("ho"@, 28i16),
        ("jl"@, 29i16),
        ("am"@, 30i16),
        ("ob"@, 31i16),
        ("jn"@, 32i16),
        ("mi"@, 33i16),
        ("na"@, 34i16),
        ("hk"@, 35i16),
        ("zp"@, 36i16),
        ("hg"@, 37i16),
        ("zc"@, 38i16),
        ("ml"@, 39i16),
        ("mt"@, 40i16),
        ("mk"@, 41i16),
        ("lk"@, 42i16),
        ("jo"@, 43i16),
        ("act"@, 44i16),
        ("rm"@, 45i16),
        ("1co"@, 46i16),
        ("2co"@, 47i16),
        ("gl"@, 48i16),
        ("eph"@, 49i16),
        ("ph"@, 50i16),
        ("cl"@, 51i16),
        ("1ts"@, 52i16),
        ("2ts"@, 53i16),
        ("1tm"@, 54i16),
        ("2tm"@, 55i16),
        ("tt"@, 56i16),
        ("phm"@, 57i16),
        ("hb"@, 58i16),
        ("jm"@, 59i16),
        ("1pe"@, 60i16),
        ("2pe"@, 61i16),
        ("1jo"@, 62i16),
        ("2jo"@, 63i16),
        ("3jo"@, 64i16),
        ("jd"@, 65i16),
        ("re"@, 66i16),
    ]
}

/// The lower-case form of an ASCII letter; any other character is left as
/// it is.
pub open spec fn ascii_lowered(c: char) -> char {
    if 'A' <= c <= 'Z' {
        ((c as u32) + 32) as char
    } else {
        c
    }
}

/// Whether two texts are the same but for the case of their ASCII letters.
pub open spec fn same_but_for_ascii_case(a: Seq<char>, b: Seq<char>) -> bool {
    a.len() == b.len() && forall|i: int|
        0 <= i < a.len() ==> ascii_lowered(#[trigger] a[i]) == ascii_lowered(b[i])
}

/// The number that the first entry of `table` for `abbrev` gives, the case
/// of ASCII letters set aside.
pub open spec fn looked_up(table: Seq<(Seq<char>, i16)>, abbrev: Seq<char>) -> Option<i16>
    decreases table.len(),
{
    if table.len() == 0 {
        None
    } else if same_but_for_ascii_case(table[0].0, abbrev) {
        Some(table[0].1)
    } else {
        looked_up(table.skip(1), abbrev)
    }
}

/// What a table of abbreviations says, entry by entry.
pub open spec fn table_view(table: Seq<(&'static str, i16)>) -> Seq<(Seq<char>, i16)> {
    table.map_values(|entry: (&'static str, i16)| (entry.0@, entry.1))
}

fn lower_ascii(c: char) -> (lower: char)
    ensures
        lower == ascii_lowered(c),
{
    if c >= 'A' && c <= 'Z' {
        let code: u32 = c as u32;
        ((code + 32) as u8) as char
    } else {
        c
    }
}

/// Tells whether two texts are the same but for the case of their ASCII
/// letters.
pub fn eq_ignoring_ascii_case(a: &Vec<char>, b: &Vec<char>) -> (same: bool)
    ensures
        same == same_but_for_ascii_case(a@, b@),
{
    if a.len() != b.len() {
        return false;
    }
    let mut i: usize = 0;
    while i < a.len()
        invariant
            i <= a.len() == b.len(),
            forall|j: int| 0 <= j < i ==> ascii_lowered(#[trigger] a@[j]) == ascii_lowered(b@[j]),
        decreases a.len() - i,
    {
        if lower_ascii(a[i]) != lower_ascii(b[i]) {
            return false;
        }
        i += 1;
    }
    true
}

/// The table of book abbreviations.
fn book_table() -> (table: Vec<(&'static str, i16)>)
    ensures
        table_view(table@) == book_mapping(),
{
    let table: Vec<(&'static str, i16)> = vec![
        ("gn", 1),
        ("ex", 2),
        ("lv", 3),
        ("nm", 4),
        ("dt", 5),
        ("js", 6),
        ("jud", 7),
        ("rt", 8),
        ("1sm", 9),
        ("2sm", 10),
        ("1kgs", 11),
        ("2kgs", 12),
        ("1ch", 13),
        ("2ch", 14),
        ("ezr", 15),
        ("ne", 16),
        ("et", 17),
        ("job", 18),
        ("ps", 19),
        ("prv", 20),
        ("ec", 21),
        ("so", 22),
        ("is", 23),
        ("jr", 24),
        ("lm", 25),
        ("ez", 26),
        ("dn", 27),
        ("ho", 28),
        ("jl", 29),
        ("am", 30),
        ("ob", 31),
        ("jn", 32),
        ("mi", 33),
        ("na", 34),
        ("hk", 35),
        ("zp", 36),
        ("hg", 37),
        ("zc", 38),
        ("ml", 39),
        ("mt", 40),
        ("mk", 41),
        ("lk", 42),
        ("jo", 43),
        ("act", 44),
        ("rm", 45),
        ("1co", 46),
        ("2co", 47),
        ("gl", 48),
        ("eph", 49),
        ("ph", 50),
        ("cl", 51),
        ("1ts", 52),
        ("2ts", 53),
        ("1tm", 54),
        ("2tm", 55),
        ("tt", 56),
        ("phm", 57),
        ("hb", 58),
        ("jm", 59),
        ("1pe", 60),
        ("2pe", 61),
        ("1jo", 62),
        ("2jo", 63),
        ("3jo", 64),
        ("jd", 65),
        ("re", 66),
    ];
    assert(table_view(table@) =~= book_mapping());
    table
}

/// Finds the number of the book that a file names by `abbrev`, the case of
/// ASCII letters set aside. An abbreviation that the table does not hold
/// gives `None`.
pub fn get_book_id(abbrev: &str) -> (id: Option<i16>)
    ensures
        id == looked_up(book_mapping(), abbrev@),
{
    let table: Vec<(&'static str, i16)> = book_table();
    let wanted: Vec<char> = chars_of(abbrev);
    let mut i: usize = 0;
    proof {
        assert(table_view(table@).skip(0) =~= table_view(table@));
    }
    while i < table.len()
        invariant
            i <= table.len(),
            wanted@ == abbrev@,
            table_view(table@) == book_mapping(),
            looked_up(table_view(table@).skip(i as int), abbrev@) == looked_up(
                book_mapping(),
                abbrev@,
            ),
        decreases table.len() - i,
    {
        let ghost rest = table_view(table@).skip(i as int);
        let name: Vec<char> = chars_of(table[i].0);
        proof {
            assert(rest[0] == (table@[i as int].0@, table@[i as int].1));
            assert(rest.skip(1) =~= table_view(table@).skip(i + 1));
        }
        if eq_ignoring_ascii_case(&name, &wanted) {
            return Some(table[i].1);
        }
        i += 1;
    }
    proof {
        assert(table_view(table@).skip(table.len() as int) =~= Seq::empty());
    }
    None
}

/// A text without the byte order mark at its start, if it has one.
pub open spec fn without_bom(text: Seq<char>) -> Seq<char> {
    if text.len() > 0 && text[0] == '\u{feff}' {
        text.skip(1)
    } else {
        text
    }
}

/// Strips the byte order mark from the start of a text that has one.
pub fn strip_bom(content: &str) -> (rest: &str)
    ensures
        rest@ == without_bom(content@),
{
    let len: usize = content.unicode_len();
    if len > 0 && content.get_char(0) == '\u{feff}' {
        let rest = content.substring_char(1, len);
        assert(content@.subrange(1, len as int) =~= content@.skip(1));
        rest
    } else {
        content
    }
}

/// The number of the chapter or verse that stands at `index` in its list:
/// numbers start at 1. A number beyond the range of `i16` is none.
pub fn number_at(index: usize) -> (number: Option<i16>)
    ensures
        number == if index < i16::MAX {
            Some((index + 1) as i16)
        } else {
            None::<i16>
        },
{
    if index < 32767 {
        Some((index + 1) as i16)
    } else {
        None
    }
}

/// Statistics from Bible loading operation.
#[derive(Debug, Clone, Copy, PartialEq, Eq, Structural)]
pub struct LoadStats {
    pub books_loaded: usize,
    pub verses_loaded: usize,
    pub skipped_books: usize,
}

impl Default for LoadStats {
    /// Nothing loaded and nothing skipped.
    fn default() -> (stats: Self)
        ensures
            stats == (LoadStats { books_loaded: 0, verses_loaded: 0, skipped_books: 0 }),
    {
        LoadStats { books_loaded: 0, verses_loaded: 0, skipped_books: 0 }
    }
}

impl LoadStats {
    /// The report of the statistics as a text.
    pub open spec fn summary_text(&self) -> Seq<char> {
        "Loaded "@ + decimal(self.books_loaded as nat) + " books, "@ + decimal(
            self.verses_loaded as nat,
        ) + " verses ("@ + decimal(self.skipped_books as nat) + " skipped)"@
    }

    /// Counts a book that was skipped because its abbreviation is unknown.
    pub fn record_skipped(&mut self)
        requires
            old(self).skipped_books < usize::MAX,
        ensures
            *final(self) == (LoadStats {
                skipped_books: (old(self).skipped_books + 1) as usize,
                ..*old(self)
            }),
    {
        self.skipped_books = self.skipped_books + 1;
    }

    /// Counts a book that was loaded with `verses` verses.
    pub fn record_book(&mut self, verses: usize)
        requires
            old(self).books_loaded < usize::MAX,
            old(self).verses_loaded + verses <= usize::MAX,
        ensures
            *final(self) == (LoadStats {
                books_loaded: (old(self).books_loaded + 1) as usize,
                verses_loaded: (old(self).verses_loaded + verses) as usize,
                ..*old(self)
            }),
    {
        self.books_loaded = self.books_loaded + 1;
        self.verses_loaded = self.verses_loaded + verses;
    }

    /// Reports the statistics in words: `Loaded 66 books, 31102 verses (0
    /// skipped)`.
    pub fn summary(&self) -> (report: String)
        ensures
            report@ == self.summary_text(),
    {
        let loaded: Vec<char> = chars_of("Loaded ");
        let books: Vec<char> = chars_of(" books, ");
        let verses: Vec<char> = chars_of(" verses (");
        let skipped: Vec<char> = chars_of(" skipped)");
        let mut out: Vec<char> = Vec::new();
        push_range(&mut out, &loaded, 0, loaded.len());
        push_decimal(&mut out, self.books_loaded as u64);
        push_range(&mut out, &books, 0, books.len());
        push_decimal(&mut out, self.verses_loaded as u64);
        push_range(&mut out, &verses, 0, verses.len());
        push_decimal(&mut out, self.skipped_books as u64);
        push_range(&mut out, &skipped, 0, skipped.len());
        proof {
            assert(loaded@.subrange(0, loaded.len() as int) =~= loaded@);
            assert(books@.subrange(0, books.len() as int) =~= books@);
            assert(verses@.subrange(0, verses.len() as int) =~= verses@);
            assert(skipped@.subrange(0, skipped.len() as int) =~= skipped@);
            assert(out@ =~= self.summary_text());
        }
        string_of(&out)
    }
}

} // verus!
