//! Texts as sequences of characters: conversions, searching and splitting.

use vstd::prelude::*;

verus! {

/// `String::push` appends one character to the end of the string.
pub assume_specification[ String::push ](s: &mut String, ch: char)
    ensures
        final(s)@ == old(s)@.push(ch),
;

/// Whether `c` is white space, as `char::is_whitespace` tells it.
pub uninterp spec fn is_white_space(c: char) -> bool;

/// `char::is_whitespace` tells whether a character has the Unicode property
/// `White_Space`; its answer depends on the character alone.
pub assume_specification[ char::is_whitespace ](c: char) -> (b: bool)
    ensures
        b == is_white_space(c),
;

/// `char::from_u32` gives the character with the code `code`, and `None`
/// where the code is that of no character: a surrogate, or a number above
/// `0x10FFFF`.
pub assume_specification[ char::from_u32 ](code: u32) -> (c: Option<char>)
    ensures
        c == if code <= 0xD7FF || 0xE000 <= code <= 0x10FFFF {
            Some(code as char)
        } else {
            None::<char>
        },
;

/// The characters of `s`, in order.
pub fn chars_of(s: &str) -> (v: Vec<char>)
    ensures
        v@ == s@,
{
    let mut v: Vec<char> = Vec::new();
    for c in it: s.chars()
        invariant
            v@ == it.seq().take(it.index() as int),
    {
        v.push(c);
    }
    v
}

/// The string made of the characters of `v`, in order.
pub fn string_of(v: &Vec<char>) -> (s: String)
    ensures
        s@ == v@,
{
    let mut s = String::new();
    let mut i: usize = 0;
    while i < v.len()
        invariant
            i <= v.len(),
            s@ == v@.take(i as int),
        decreases v.len() - i,
    {
        s.push(v[i]);
        i += 1;
    }
    s
}

/// The texts of a list of strings.
pub open spec fn texts(list: Seq<String>) -> Seq<Seq<char>> {
    list.map_values(|s: String| s@)
}

/// Index of the first `c` in `s`, or `s.len()` where `s` holds none.
pub open spec fn first_index_of(s: Seq<char>, c: char) -> nat
    decreases s.len(),
{
    if s.len() == 0 || s[0] == c {
        0
    } else {
        1 + first_index_of(s.skip(1), c)
    }
}

/// `first_index_of` is in range, nothing before it is `c`, and where it is
/// less than the length it points at a `c`.
pub proof fn lemma_first_index_of(s: Seq<char>, c: char)
    ensures
        first_index_of(s, c) <= s.len(),
        forall|j: int| 0 <= j < first_index_of(s, c) ==> s[j] != c,
        first_index_of(s, c) < s.len() ==> s[first_index_of(s, c) as int] == c,
    decreases s.len(),
{
    if s.len() == 0 || s[0] == c {
    } else {
        let t = s.skip(1);
        lemma_first_index_of(t, c);
        assert forall|j: int| 0 <= j < first_index_of(s, c) implies s[j] != c by {
            if j > 0 {
                assert(s[j] == t[j - 1]);
            }
        }
    }
}

/// The only index with the properties of `lemma_first_index_of` is
/// `first_index_of` itself.
pub proof fn lemma_first_index_of_is(s: Seq<char>, c: char, k: int)
    requires
        0 <= k <= s.len(),
        forall|j: int| 0 <= j < k ==> s[j] != c,
        k < s.len() ==> s[k] == c,
    ensures
        first_index_of(s, c) == k,
    decreases s.len(),
{
    if s.len() == 0 || s[0] == c {
    } else {
        let t = s.skip(1);
        assert forall|j: int| 0 <= j < k - 1 implies t[j] != c by {
            assert(t[j] == s[j + 1]);
        }
        lemma_first_index_of_is(t, c, k - 1);
    }
}

/// The pieces of `s` between its separators `sep`. A text without
/// separator is one piece, the empty text too.
pub open spec fn split_at(s: Seq<char>, sep: char) -> Seq<Seq<char>>
    decreases s.len(),
{
    let k = first_index_of(s, sep) as int;
    if k < s.len() {
        seq![s.take(k)] + split_at(s.skip(k + 1), sep)
    } else {
        seq![s]
    }
}

/// Index of the first `c` in `text[from..end]`, or `end` where there is none.
pub fn find_char(text: &Vec<char>, from: usize, end: usize, c: char) -> (k: usize)
    requires
        from <= end <= text.len(),
    ensures
        from <= k <= end,
        k - from == first_index_of(text@.subrange(from as int, end as int), c),
{
    let mut k: usize = from;
    while k < end && text[k] != c
        invariant
            from <= k <= end <= text.len(),
            forall|j: int| from <= j < k ==> text@[j] != c,
        decreases end - k,
    {
        k += 1;
    }
    proof {
        lemma_first_index_of_is(text@.subrange(from as int, end as int), c, k - from);
    }
    k
}

/// Appends `text[from..end]` to `out`.
pub fn push_range(out: &mut Vec<char>, text: &Vec<char>, from: usize, end: usize)
    requires
        from <= end <= text.len(),
    ensures
        final(out)@ == old(out)@ + text@.subrange(from as int, end as int),
{
    let mut i: usize = from;
    while i < end
        invariant
            from <= i <= end <= text.len(),
            out@ == old(out)@ + text@.subrange(from as int, i as int),
        decreases end - i,
    {
        out.push(text[i]);
        i += 1;
        assert(out@ =~= old(out)@ + text@.subrange(from as int, i as int));
    }
    assert(out@ =~= old(out)@ + text@.subrange(from as int, end as int));
}

/// The string that holds `text[from..end]`.
pub fn string_of_range(text: &Vec<char>, from: usize, end: usize) -> (s: String)
    requires
        from <= end <= text.len(),
    ensures
        s@ == text@.subrange(from as int, end as int),
{
    let mut s = String::new();
    let mut i: usize = from;
    assert(s@ =~= text@.subrange(from as int, i as int));
    while i < end
        invariant
            from <= i <= end <= text.len(),
            s@ == text@.subrange(from as int, i as int),
        decreases end - i,
    {
        s.push(text[i]);
        i += 1;
        assert(s@ =~= text@.subrange(from as int, i as int));
    }
    s
}

/// Splits `text` at every `sep`.
pub fn split_text(text: &Vec<char>, sep: char) -> (pieces: Vec<String>)
    ensures
        texts(pieces@) == split_at(text@, sep),
{
    let len: usize = text.len();
    let mut pieces: Vec<String> = Vec::new();
    let mut start: usize = 0;
    proof {
        assert(text@.skip(0) =~= text@);
        assert(texts(pieces@) + split_at(text@, sep) =~= split_at(text@, sep));
    }
    loop
        invariant
            start <= len == text.len(),
            texts(pieces@) + split_at(text@.skip(start as int), sep) == split_at(text@, sep),
        decreases len - start,
    {
        let ghost rest = text@.skip(start as int);
        let ghost before = pieces@;
        let k: usize = find_char(text, start, len, sep);
        proof {
            assert(rest =~= text@.subrange(start as int, len as int));
        }
        pieces.push(string_of_range(text, start, k));
        proof {
            assert(texts(pieces@) =~= texts(before) + seq![text@.subrange(start as int, k as int)]);
            assert(rest.take(k - start) =~= text@.subrange(start as int, k as int));
        }
        if k >= len {
            proof {
                assert(rest.take(k - start) =~= rest);
            }
            return pieces;
        }
        proof {
            assert(rest.skip(k - start + 1) =~= text@.skip(k + 1));
            assert(texts(pieces@) + split_at(text@.skip(k + 1), sep) =~= texts(before)
                + split_at(rest, sep));
        }
        start = k + 1;
    }
}

} // verus!
