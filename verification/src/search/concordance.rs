//! Exact-word lookup in the word index.
//!
//! The index holds one entry for every occurrence of a word in a verse. A
//! lookup gives the verses that hold the word, each once and in the order
//! of the Bible, and the number of times the word occurs in all.

use vstd::prelude::*;
use crate::search::words::{lower_word, lowered_text};

verus! {

/// The place of a verse: book, chapter and verse number.
#[derive(Debug, Clone, Copy, PartialEq, Eq, Structural)]
pub struct VerseRef {
    pub book_id: i16,
    pub chapter: i16,
    pub verse: i16,
}

/// One occurrence of a word: the word in its normalized form, the verse
/// that holds it, and its position among the index words of that verse.
#[derive(Debug, Clone)]
pub struct WordEntry {
    pub word: String,
    pub verse: VerseRef,
    pub position: i16,
}

/// What a lookup gives.
#[derive(Debug, Clone)]
pub struct Concordance {
    /// The verses that hold the word, in the order of the Bible.
    pub verses: Vec<VerseRef>,
    /// The number of occurrences of the word in the whole index.
    pub total_count: usize,
}

/// Whether verse `a` stands before verse `b` in the Bible.
pub open spec fn stands_before(a: VerseRef, b: VerseRef) -> bool {
    if a.book_id != b.book_id {
        a.book_id < b.book_id
    } else if a.chapter != b.chapter {
        a.chapter < b.chapter
    } else {
        a.verse < b.verse
    }
}

/// Whether an entry is an occurrence of the looked-up word. The word is
/// put in lower case before it is compared.
pub open spec fn is_occurrence(entry: WordEntry, word: Seq<char>) -> bool {
    entry.word@ == lowered_text(word)
}

/// The number of occurrences of `word` among `entries`.
pub open spec fn occurrence_count(entries: Seq<WordEntry>, word: Seq<char>) -> nat
    decreases entries.len(),
{
    if entries.len() == 0 {
        0
    } else if is_occurrence(entries.last(), word) {
        occurrence_count(entries.drop_last(), word) + 1
    } else {
        occurrence_count(entries.drop_last(), word)
    }
}

/// Whether some entry is an occurrence of `word` in `verse`.
pub open spec fn holds_word(entries: Seq<WordEntry>, word: Seq<char>, verse: VerseRef) -> bool {
    exists|e: int|
        0 <= e < entries.len() && is_occurrence(#[trigger] entries[e], word) && entries[e].verse
            == verse
}

/// The most verses that a lookup with the given limit hands out: none for
/// a limit of zero or less.
pub open spec fn verse_cap(limit: int) -> nat {
    if limit <= 0 {
        0
    } else {
        limit as nat
    }
}

/// Whether `verses` lists the verses that hold `word`, each once and in
/// the order of the Bible, cut off behind `cap` verses: every verse listed
/// holds the word, and a verse that holds the word is either listed or
/// stands behind `cap` listed ones.
pub open spec fn is_concordance(
    entries: Seq<WordEntry>,
    word: Seq<char>,
    cap: nat,
    verses: Seq<VerseRef>,
) -> bool {
    &&& verses.len() <= cap
    &&& forall|i: int, j: int|
        0 <= i < j < verses.len() ==> stands_before(#[trigger] verses[i], #[trigger] verses[j])
    &&& forall|i: int| 0 <= i < verses.len() ==> holds_word(entries, word, #[trigger] verses[i])
    &&& forall|e: int|
        0 <= e < entries.len() && is_occurrence(#[trigger] entries[e], word) ==> is_listed_or_cut(
            verses,
            cap,
            entries[e].verse,
        )
}

/// Whether `verse` is listed in `verses`, or `verses` is full and `verse`
/// stands behind all of it.
pub open spec fn is_listed_or_cut(verses: Seq<VerseRef>, cap: nat, verse: VerseRef) -> bool {
    verses.contains(verse) || (verses.len() == cap && forall|i: int|
        0 <= i < verses.len() ==> stands_before(#[trigger] verses[i], verse))
}

/// Whether `word` occurs nowhere in the index.
pub open spec fn is_absent(entries: Seq<WordEntry>, word: Seq<char>) -> bool {
    forall|e: int| 0 <= e < entries.len() ==> !is_occurrence(#[trigger] entries[e], word)
}

/// A word that occurs nowhere in the index is found in no verse and
/// counted 0 times.
pub proof fn lemma_absent_word_is_not_found(
    entries: Seq<WordEntry>,
    word: Seq<char>,
    cap: nat,
    verses: Seq<VerseRef>,
)
    requires
        is_absent(entries, word),
        is_concordance(entries, word, cap, verses),
    ensures
        verses.len() == 0,
        occurrence_count(entries, word) == 0,
    decreases entries.len(),
{
    if verses.len() > 0 {
        assert(holds_word(entries, word, verses[0]));
    }
    lemma_absent_word_counts_nothing(entries, word);
}

proof fn lemma_absent_word_counts_nothing(entries: Seq<WordEntry>, word: Seq<char>)
    requires
        is_absent(entries, word),
    ensures
        occurrence_count(entries, word) == 0,
    decreases entries.len(),
{
    if entries.len() > 0 {
        let rest = entries.drop_last();
        assert forall|e: int| 0 <= e < rest.len() implies !is_occurrence(
            #[trigger] rest[e],
            word,
        ) by {
            assert(rest[e] == entries[e]);
        }
        lemma_absent_word_counts_nothing(rest, word);
    }
}

/// Where two lists for the same lookup agree up to place `n` and differ
/// there, the entry of the second at `n` stands before that of the first.
proof fn lemma_stands_behind(
    entries: Seq<WordEntry>,
    word: Seq<char>,
    cap: nat,
    a: Seq<VerseRef>,
    b: Seq<VerseRef>,
    n: int,
)
    requires
        is_concordance(entries, word, cap, a),
        is_concordance(entries, word, cap, b),
        0 <= n < a.len(),
        n < b.len(),
        forall|i: int| 0 <= i < n ==> a[i] == b[i],
        a[n] != b[n],
    ensures
        stands_before(b[n], a[n]),
{
    let x = a[n];
    assert(holds_word(entries, word, x));
    let e = choose|e: int|
        0 <= e < entries.len() && is_occurrence(#[trigger] entries[e], word) && entries[e].verse
            == x;
    assert(is_listed_or_cut(b, cap, entries[e].verse));
    if b.contains(x) {
        let j = choose|j: int| 0 <= j < b.len() && b[j] == x;
        if j < n {
            assert(a[j] == x);
            assert(stands_before(a[j], a[n]));
        }
        assert(stands_before(b[n], b[j]));
    }
}

proof fn lemma_lists_agree(
    entries: Seq<WordEntry>,
    word: Seq<char>,
    cap: nat,
    a: Seq<VerseRef>,
    b: Seq<VerseRef>,
    n: int,
)
    requires
        is_concordance(entries, word, cap, a),
        is_concordance(entries, word, cap, b),
        0 <= n <= a.len(),
        n <= b.len(),
    ensures
        forall|i: int| 0 <= i < n ==> a[i] == b[i],
    decreases n,
{
    if n > 0 {
        lemma_lists_agree(entries, word, cap, a, b, n - 1);
        if a[n - 1] != b[n - 1] {
            lemma_stands_behind(entries, word, cap, a, b, n - 1);
            lemma_stands_behind(entries, word, cap, b, a, n - 1);
        }
    }
}

/// No list for the same lookup is longer than another.
proof fn lemma_is_not_longer(
    entries: Seq<WordEntry>,
    word: Seq<char>,
    cap: nat,
    a: Seq<VerseRef>,
    b: Seq<VerseRef>,
)
    requires
        is_concordance(entries, word, cap, a),
        is_concordance(entries, word, cap, b),
    ensures
        b.len() <= a.len(),
{
    if a.len() < b.len() {
        let n = a.len() as int;
        lemma_lists_agree(entries, word, cap, a, b, n);
        let y = b[n];
        assert(holds_word(entries, word, y));
        let e = choose|e: int|
            0 <= e < entries.len() && is_occurrence(#[trigger] entries[e], word)
                && entries[e].verse == y;
        assert(is_listed_or_cut(a, cap, entries[e].verse));
        if a.contains(y) {
            let j = choose|j: int| 0 <= j < a.len() && a[j] == y;
            assert(b[j] == y);
            assert(stands_before(b[j], b[n]));
        }
    }
}

/// The lookup is determined: two lists that both answer the same lookup
/// are the same list.
pub proof fn lemma_concordance_is_unique(
    entries: Seq<WordEntry>,
    word: Seq<char>,
    cap: nat,
    a: Seq<VerseRef>,
    b: Seq<VerseRef>,
)
    requires
        is_concordance(entries, word, cap, a),
        is_concordance(entries, word, cap, b),
    ensures
        a == b,
{
    lemma_is_not_longer(entries, word, cap, a, b);
    lemma_is_not_longer(entries, word, cap, b, a);
    lemma_lists_agree(entries, word, cap, a, b, a.len() as int);
    assert(a =~= b);
}

/// Tells whether verse `a` stands before verse `b` in the Bible.
pub fn verse_precedes(a: &VerseRef, b: &VerseRef) -> (before: bool)
    ensures
        before == stands_before(*a, *b),
{
    if a.book_id != b.book_id {
        a.book_id < b.book_id
    } else if a.chapter != b.chapter {
        a.chapter < b.chapter
    } else {
        a.verse < b.verse
    }
}

proof fn lemma_insert_contains(s: Seq<VerseRef>, p: int, x: VerseRef, y: VerseRef)
    requires
        0 <= p <= s.len(),
    ensures
        s.insert(p, x).contains(y) <==> (s.contains(y) || y == x),
{
    let t = s.insert(p, x);
    if t.contains(y) {
        let i = choose|i: int| 0 <= i < t.len() && t[i] == y;
        if i < p {
            assert(s[i] == y);
        } else if i > p {
            assert(s[i - 1] == y);
        }
    }
    if s.contains(y) {
        let i = choose|i: int| 0 <= i < s.len() && s[i] == y;
        if i < p {
            assert(t[i] == y);
        } else {
            assert(t[i + 1] == y);
        }
    }
    if y == x {
        assert(t[p] == y);
    }
}

proof fn lemma_drop_last_contains(s: Seq<VerseRef>, y: VerseRef)
    requires
        s.len() > 0,
    ensures
        s.contains(y) <==> (s.drop_last().contains(y) || y == s.last()),
{
    let t = s.drop_last();
    if s.contains(y) {
        let i = choose|i: int| 0 <= i < s.len() && s[i] == y;
        if i < s.len() - 1 {
            assert(t[i] == y);
        }
    }
    if t.contains(y) {
        let i = choose|i: int| 0 <= i < t.len() && t[i] == y;
        assert(s[i] == y);
    }
}

/// Enters `verse` in the sorted list `verses`, which holds `cap` verses at
/// most: a verse that is listed already, or that stands behind a full
/// list, is not entered; where the list grows beyond `cap`, its last verse
/// is dropped.
fn enter_verse(verses: &mut Vec<VerseRef>, verse: VerseRef, cap: u64)
    requires
        old(verses).len() <= cap,
        forall|i: int, j: int|
            0 <= i < j < old(verses).len() ==> stands_before(
                #[trigger] old(verses)[i],
                #[trigger] old(verses)[j],
            ),
    ensures
        final(verses).len() <= cap,
        forall|i: int, j: int|
            0 <= i < j < final(verses).len() ==> stands_before(
                #[trigger] final(verses)[i],
                #[trigger] final(verses)[j],
            ),
        forall|i: int|
            0 <= i < final(verses).len() ==> old(verses)@.contains(#[trigger] final(verses)[i])
                || final(verses)[i] == verse,
        is_listed_or_cut(final(verses)@, cap as nat, verse),
        forall|v: VerseRef|
            is_listed_or_cut(old(verses)@, cap as nat, v) ==> is_listed_or_cut(
                final(verses)@,
                cap as nat,
                v,
            ),
{
    let ghost before = verses@;
    let len: usize = verses.len();
    let mut place: usize = 0;
    while place < len && verse_precedes(&verses[place], &verse)
        invariant
            place <= len == verses.len(),
            verses@ == before,
            forall|i: int| 0 <= i < place ==> stands_before(#[trigger] verses[i], verse),
        decreases len - place,
    {
        place += 1;
    }
    if place < len && verses[place] == verse {
        assert(verses@.contains(verse));
        return ;
    }
    proof {
        assert forall|j: int| place <= j < len implies stands_before(
            verse,
            #[trigger] before[j],
        ) by {
            if j > place {
                assert(stands_before(before[place as int], before[j]));
            }
        }
    }
    if place == len && len as u64 >= cap {
        return ;
    }
    verses.insert(place, verse);
    let ghost grown = verses@;
    proof {
        assert forall|y: VerseRef| grown.contains(y) <==> (before.contains(y) || y == verse) by {
            lemma_insert_contains(before, place as int, verse, y);
        }
        assert forall|i: int, j: int| 0 <= i < j < grown.len() implies stands_before(
            #[trigger] grown[i],
            #[trigger] grown[j],
        ) by {
            if j < place {
                assert(grown[i] == before[i] && grown[j] == before[j]);
            } else if j == place {
                assert(grown[i] == before[i]);
            } else if i < place {
                assert(grown[i] == before[i] && grown[j] == before[j - 1]);
            } else if i == place {
                assert(grown[j] == before[j - 1]);
            } else {
                assert(grown[i] == before[i - 1] && grown[j] == before[j - 1]);
            }
        }
        assert forall|i: int| 0 <= i < grown.len() implies before.contains(#[trigger] grown[i])
            || grown[i] == verse by {
            if i < place {
                assert(grown[i] == before[i]);
            } else if i > place {
                assert(grown[i] == before[i - 1]);
            }
        }
    }
    if verses.len() as u64 > cap {
        let dropped = verses.pop();
        proof {
            assert(verses@ == grown.drop_last());
            assert(len as u64 == cap);
            assert(place < len);
            let last = before[len - 1];
            assert(grown.last() == last);
            assert forall|i: int| 0 <= i < verses.len() implies #[trigger] verses[i]
                == grown[i] by {}
            assert forall|i: int| 0 <= i < verses.len() implies before.contains(
                #[trigger] verses[i],
            ) || verses[i] == verse by {
                assert(verses[i] == grown[i]);
            }
            assert(verses@.contains(verse)) by {
                assert(verses[place as int] == verse);
            }
            assert forall|v: VerseRef|
                is_listed_or_cut(before, cap as nat, v) implies is_listed_or_cut(
                verses@,
                cap as nat,
                v,
            ) by {
                lemma_drop_last_contains(grown, v);
                if before.contains(v) {
                    if v == last && !verses@.contains(v) {
                        assert forall|i: int| 0 <= i < verses.len() implies stands_before(
                            #[trigger] verses[i],
                            v,
                        ) by {
                            assert(stands_before(grown[i], grown[grown.len() - 1]));
                        }
                    }
                } else {
                    assert forall|i: int| 0 <= i < verses.len() implies stands_before(
                        #[trigger] verses[i],
                        v,
                    ) by {
                        assert(stands_before(last, v));
                        if i < place {
                            assert(verses[i] == before[i]);
                        } else if i > place {
                            assert(verses[i] == before[i - 1]);
                        } else {
                            assert(stands_before(verse, last));
                        }
                    }
                }
            }
        }
    } else {
        proof {
            assert(grown[place as int] == verse);
            assert forall|v: VerseRef|
                is_listed_or_cut(before, cap as nat, v) implies is_listed_or_cut(
                grown,
                cap as nat,
                v,
            ) by {
                if !before.contains(v) {
                    assert(len as u64 == cap);
                }
            }
        }
    }
}

/// Looks a word up in the index.
///
/// The word is put in lower case and compared with the words of the
/// entries. The result lists the verses that hold the word, each once and
/// in the order of the Bible, `limit` verses at most, and counts the
/// occurrences of the word in the whole index. A word that the index does
/// not hold gives no verse and a count of 0.
pub fn concordance(entries: &Vec<WordEntry>, word: &str, limit: i64) -> (found: Concordance)
    ensures
        is_concordance(entries@, word@, verse_cap(limit as int), found.verses@),
        found.total_count == occurrence_count(entries@, word@),
        is_absent(entries@, word@) ==> found.verses@.len() == 0 && found.total_count == 0,
{
    let cap: u64 = if limit <= 0 {
        0
    } else {
        limit as u64
    };
    let lower: String = lower_word(word);
    let mut verses: Vec<VerseRef> = Vec::new();
    let mut total: usize = 0;
    let mut e: usize = 0;
    assert(entries@.take(0) =~= Seq::<WordEntry>::empty());
    while e < entries.len()
        invariant
            e <= entries.len(),
            cap == verse_cap(limit as int),
            lower@ == lowered_text(word@),
            total == occurrence_count(entries@.take(e as int), word@),
            total <= e,
            is_concordance(entries@.take(e as int), word@, cap as nat, verses@),
        decreases entries.len() - e,
    {
        let ghost seen = entries@.take(e as int);
        let ghost more = entries@.take(e + 1);
        let ghost old_verses = verses@;
        proof {
            assert(more.drop_last() =~= seen);
            assert(more.last() == entries@[e as int]);
            assert forall|v: VerseRef| holds_word(seen, word@, v) implies holds_word(
                more,
                word@,
                v,
            ) by {
                let w = choose|w: int|
                    0 <= w < seen.len() && is_occurrence(#[trigger] seen[w], word@) && seen[w].verse
                        == v;
                assert(more[w] == seen[w]);
            }
        }
        if entries[e].word == lower {
            total += 1;
            let verse: VerseRef = entries[e].verse;
            enter_verse(&mut verses, verse, cap);
            proof {
                assert(holds_word(more, word@, verse)) by {
                    assert(is_occurrence(more[e as int], word@));
                }
                assert forall|i: int| 0 <= i < verses.len() implies holds_word(
                    more,
                    word@,
                    #[trigger] verses[i],
                ) by {
                    if old_verses.contains(verses[i]) {
                        let k = choose|k: int| 0 <= k < old_verses.len() && old_verses[k] == verses[i];
                        assert(holds_word(seen, word@, old_verses[k]));
                    }
                }
                assert forall|x: int|
                    0 <= x < more.len() && is_occurrence(
                        #[trigger] more[x],
                        word@,
                    ) implies is_listed_or_cut(verses@, cap as nat, more[x].verse) by {
                    if x < e {
                        assert(more[x] == seen[x]);
                        assert(is_listed_or_cut(old_verses, cap as nat, seen[x].verse));
                    }
                }
            }
        } else {
            proof {
                assert forall|x: int|
                    0 <= x < more.len() && is_occurrence(
                        #[trigger] more[x],
                        word@,
                    ) implies is_listed_or_cut(verses@, cap as nat, more[x].verse) by {
                    assert(x < e);
                    assert(more[x] == seen[x]);
                }
            }
        }
        e += 1;
    }
    proof {
        assert(entries@.take(entries.len() as int) =~= entries@);
        if is_absent(entries@, word@) {
            lemma_absent_word_is_not_found(entries@, word@, cap as nat, verses@);
        }
    }
    Concordance { verses, total_count: total }
}

} // verus!
