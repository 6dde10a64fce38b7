//! The words of the word index.
//!
//! A text is cut into words at white space. Of each word only letters of
//! the Latin and the Russian alphabet and digits are kept, and the letters
//! are put in lower case. What is left is entered in the index if it has
//! at least `MIN_WORD_LEN` characters.

use vstd::prelude::*;
use crate::text::{chars_of, is_white_space, string_of, texts};

verus! {

/// The number of characters that a word must have to be entered in the
/// index.
pub const MIN_WORD_LEN: usize = 3;

/// Whether the index keeps the character `c`: a Latin letter, a digit, or
/// a letter of the Russian alphabet.
pub open spec fn is_index_char(c: char) -> bool {
    ||| 'a' <= c <= 'z'
    ||| 'A' <= c <= 'Z'
    ||| '0' <= c <= '9'
    ||| '\u{430}' <= c <= '\u{44f}'
    ||| '\u{410}' <= c <= '\u{42f}'
    ||| c == '\u{451}'
    ||| c == '\u{401}'
}

/// The lower-case form of a letter that the index keeps; any other
/// character is left as it is.
pub open spec fn lowered(c: char) -> char {
    if 'A' <= c <= 'Z' || '\u{410}' <= c <= '\u{42f}' {
        ((c as u32) + 32) as char
    } else if c == '\u{401}' {
        '\u{451}'
    } else {
        c
    }
}

/// A text with each of its characters in lower case.
pub open spec fn lowered_text(text: Seq<char>) -> Seq<char> {
    text.map_values(|c: char| lowered(c))
}

/// The form in which a word is entered in the index: the characters that
/// the index keeps, in lower case.
pub open spec fn normalized(word: Seq<char>) -> Seq<char>
    decreases word.len(),
{
    if word.len() == 0 {
        word
    } else if is_index_char(word.last()) {
        normalized(word.drop_last()).push(lowered(word.last()))
    } else {
        normalized(word.drop_last())
    }
}

/// What a word that has been read adds to the index: its normalized form,
/// or nothing where that is shorter than `MIN_WORD_LEN`.
pub open spec fn entered(word: Seq<char>) -> Seq<Seq<char>> {
    if normalized(word).len() >= MIN_WORD_LEN {
        seq![normalized(word)]
    } else {
        Seq::empty()
    }
}

/// The index words of `text`, where `word` holds the characters of the
/// word that was being read when `text` began.
pub open spec fn words_from(text: Seq<char>, word: Seq<char>) -> Seq<Seq<char>>
    decreases text.len(),
{
    if text.len() == 0 {
        entered(word)
    } else if is_white_space(text[0]) {
        entered(word) + words_from(text.skip(1), Seq::empty())
    } else {
        words_from(text.skip(1), word.push(text[0]))
    }
}

/// The index words of a text, in the order in which they stand in it. The
/// position of a word in the index is its place in this list, counted from
/// 1.
pub open spec fn index_words_of(text: Seq<char>) -> Seq<Seq<char>> {
    words_from(text, Seq::empty())
}

/// Whether `word` can stand in the index: it has `MIN_WORD_LEN` characters
/// or more, all of them characters that the index keeps, and its letters
/// are in lower case.
pub open spec fn is_index_word(word: Seq<char>) -> bool {
    word.len() >= MIN_WORD_LEN && forall|i: int|
        0 <= i < word.len() ==> is_index_char(#[trigger] word[i]) && lowered(word[i]) == word[i]
}

proof fn lemma_normalized_is_kept(word: Seq<char>)
    ensures
        forall|i: int|
            0 <= i < normalized(word).len() ==> is_index_char(#[trigger] normalized(word)[i])
                && lowered(normalized(word)[i]) == normalized(word)[i],
    decreases word.len(),
{
    if word.len() > 0 {
        lemma_normalized_is_kept(word.drop_last());
        let head = normalized(word.drop_last());
        if is_index_char(word.last()) {
            let c = lowered(word.last());
            assert(is_index_char(c) && lowered(c) == c);
            assert forall|i: int| 0 <= i < normalized(word).len() implies is_index_char(
                #[trigger] normalized(word)[i],
            ) && lowered(normalized(word)[i]) == normalized(word)[i] by {
                if i < head.len() {
                    assert(normalized(word)[i] == head[i]);
                }
            }
        }
    }
}

proof fn lemma_words_from_are_index_words(text: Seq<char>, word: Seq<char>)
    ensures
        forall|i: int|
            0 <= i < words_from(text, word).len() ==> is_index_word(
                #[trigger] words_from(text, word)[i],
            ),
    decreases text.len(),
{
    lemma_normalized_is_kept(word);
    assert(forall|i: int| 0 <= i < entered(word).len() ==> is_index_word(#[trigger] entered(word)[i]))
        by {
        if entered(word).len() > 0 {
            assert(entered(word)[0] == normalized(word));
            assert(is_index_word(normalized(word)));
        }
    }
    if text.len() == 0 {
        assert(words_from(text, word) == entered(word));
    } else if is_white_space(text[0]) {
        let rest = words_from(text.skip(1), Seq::empty());
        lemma_words_from_are_index_words(text.skip(1), Seq::empty());
        assert forall|i: int| 0 <= i < words_from(text, word).len() implies is_index_word(
            #[trigger] words_from(text, word)[i],
        ) by {
            if i < entered(word).len() {
                assert(words_from(text, word)[i] == entered(word)[i]);
            } else {
                assert(words_from(text, word)[i] == rest[i - entered(word).len()]);
            }
        }
    } else {
        lemma_words_from_are_index_words(text.skip(1), word.push(text[0]));
        assert(words_from(text, word) == words_from(text.skip(1), word.push(text[0])));
    }
}

/// Every word that a text enters in the index can stand there: it is as
/// long as the index asks, and it is normalized.
pub proof fn lemma_index_words_are_normalized(text: Seq<char>)
    ensures
        forall|i: int|
            0 <= i < index_words_of(text).len() ==> is_index_word(
                #[trigger] index_words_of(text)[i],
            ),
{
    lemma_words_from_are_index_words(text, Seq::empty());
}

/// Puts a letter that the index keeps in lower case.
pub fn lower_char(c: char) -> (lower: char)
    ensures
        lower == lowered(c),
{
    if (c >= 'A' && c <= 'Z') || (c >= '\u{410}' && c <= '\u{42f}') {
        let code: u32 = c as u32;
        match char::from_u32(code + 32) {
            Some(lower) => lower,
            None => c,
        }
    } else if c == '\u{401}' {
        '\u{451}'
    } else {
        c
    }
}

/// Tells whether the index keeps the character `c`.
pub fn keeps_char(c: char) -> (kept: bool)
    ensures
        kept == is_index_char(c),
{
    (c >= 'a' && c <= 'z') || (c >= 'A' && c <= 'Z') || (c >= '0' && c <= '9') || (c
        >= '\u{430}' && c <= '\u{44f}') || (c >= '\u{410}' && c <= '\u{42f}') || c == '\u{451}'
        || c == '\u{401}'
}

/// Puts a query word in lower case, as the index holds its words.
pub fn lower_word(word: &str) -> (lower: String)
    ensures
        lower@ == lowered_text(word@),
{
    let chars: Vec<char> = chars_of(word);
    let mut out: Vec<char> = Vec::new();
    let mut i: usize = 0;
    while i < chars.len()
        invariant
            i <= chars.len(),
            out@ == lowered_text(chars@.take(i as int)),
        decreases chars.len() - i,
    {
        out.push(lower_char(chars[i]));
        i += 1;
        assert(out@ =~= lowered_text(chars@.take(i as int)));
    }
    assert(chars@.take(chars.len() as int) =~= chars@);
    string_of(&out)
}

/// Normalizes a word for the index: drops every character that is no
/// letter of the Latin or Russian alphabet and no digit, and puts the
/// letters in lower case.
pub fn normalize_word(word: &str) -> (result: String)
    ensures
        result@ == normalized(word@),
{
    let chars: Vec<char> = chars_of(word);
    let mut out: Vec<char> = Vec::new();
    let mut i: usize = 0;
    assert(chars@.take(0) =~= Seq::<char>::empty());
    while i < chars.len()
        invariant
            i <= chars.len(),
            out@ == normalized(chars@.take(i as int)),
        decreases chars.len() - i,
    {
        proof {
            assert(chars@.take(i + 1).drop_last() =~= chars@.take(i as int));
        }
        if keeps_char(chars[i]) {
            out.push(lower_char(chars[i]));
        }
        i += 1;
    }
    assert(chars@.take(chars.len() as int) =~= chars@);
    string_of(&out)
}

/// Lists the index words of a text, in the order in which they stand in
/// it: the words between white space, normalized, without those that come
/// out shorter than `MIN_WORD_LEN`.
pub fn index_words(text: &str) -> (words: Vec<String>)
    ensures
        texts(words@) == index_words_of(text@),
{
    let chars: Vec<char> = chars_of(text);
    let mut words: Vec<String> = Vec::new();
    let mut word: Vec<char> = Vec::new();
    let ghost mut read: Seq<char> = Seq::empty();
    let mut i: usize = 0;
    proof {
        assert(chars@.skip(0) =~= chars@);
        assert(texts(words@) + words_from(chars@, read) =~= words_from(chars@, read));
    }
    while i < chars.len()
        invariant
            i <= chars.len(),
            word@ == normalized(read),
            texts(words@) + words_from(chars@.skip(i as int), read) == index_words_of(
                chars@,
            ),
        decreases chars.len() - i,
    {
        let c: char = chars[i];
        let ghost rest = chars@.skip(i as int);
        let ghost before = texts(words@);
        proof {
            assert(rest.skip(1) =~= chars@.skip(i + 1));
        }
        if c.is_whitespace() {
            if word.len() >= MIN_WORD_LEN {
                words.push(string_of(&word));
                proof {
                    assert(texts(words@) =~= before + entered(read));
                }
            }
            proof {
                assert(texts(words@) + words_from(
                    chars@.skip(i + 1),
                    Seq::empty(),
                ) =~= before + words_from(rest, read));
                read = Seq::empty();
            }
            word = Vec::new();
        } else {
            proof {
                assert(read.push(c).drop_last() =~= read);
                read = read.push(c);
            }
            if keeps_char(c) {
                word.push(lower_char(c));
            }
        }
        i += 1;
    }
    let ghost before = texts(words@);
    proof {
        assert(chars@.skip(chars.len() as int) =~= Seq::<char>::empty());
    }
    if word.len() >= MIN_WORD_LEN {
        words.push(string_of(&word));
        proof {
            assert(texts(words@) =~= before + entered(read));
        }
    }
    words
}

} // verus!
