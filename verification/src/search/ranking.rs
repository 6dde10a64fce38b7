//! The order of ranked search results.
//!
//! The search engine finds the matching documents and scores them. The
//! order in which they are handed out is decided here: documents whose
//! title begins with the query come first, whatever their score; then the
//! higher score wins; then the higher view count. Documents that are equal
//! in all three keep the order in which the engine gave them.

use vstd::prelude::*;
use crate::search::limits::{result_cap, result_count, MAX_RESULTS};

verus! {

/// What decides the rank of one matching document.
#[derive(Debug, Clone, Copy, PartialEq, Eq, Structural)]
pub struct RankKey {
    /// Whether the title of the document begins with the query.
    pub title_prefix: bool,
    /// The relevance that the engine gave the match, on a scale of whole
    /// numbers: the greater number is the better match.
    pub relevance: u32,
    /// How often the document was viewed.
    pub views: i32,
}

/// Whether a document with key `a` ranks above one with key `b`.
pub open spec fn outranks(a: RankKey, b: RankKey) -> bool {
    if a.title_prefix != b.title_prefix {
        a.title_prefix
    } else if a.relevance != b.relevance {
        a.relevance > b.relevance
    } else {
        a.views > b.views
    }
}

/// Whether document `i` comes before document `j` in the ranking of
/// `keys`: it ranks above `j`, or ranks equal and was given first.
pub open spec fn comes_before(keys: Seq<RankKey>, i: int, j: int) -> bool {
    outranks(keys[i], keys[j]) || (!outranks(keys[j], keys[i]) && i < j)
}

/// Whether `order` lists the best-ranked documents of `keys`, best first:
/// each entry is the number of a document, each comes before the entries
/// behind it, and each comes before every document that is left out.
pub open spec fn is_ranking(keys: Seq<RankKey>, order: Seq<usize>) -> bool {
    &&& forall|i: int| 0 <= i < order.len() ==> #[trigger] order[i] < keys.len()
    &&& forall|i: int, j: int|
        0 <= i < j < order.len() ==> comes_before(
            keys,
            #[trigger] order[i] as int,
            #[trigger] order[j] as int,
        )
    &&& forall|i: int, k: usize|
        0 <= i < order.len() && k < keys.len() && !#[trigger] order.contains(k)
            ==> comes_before(keys, #[trigger] order[i] as int, k as int)
}

/// Tells whether a document with key `a` ranks above one with key `b`.
pub fn ranks_above(a: &RankKey, b: &RankKey) -> (above: bool)
    ensures
        above == outranks(*a, *b),
{
    if a.title_prefix != b.title_prefix {
        a.title_prefix
    } else if a.relevance != b.relevance {
        a.relevance > b.relevance
    } else {
        a.views > b.views
    }
}

/// Coming before is transitive.
pub proof fn lemma_comes_before_is_transitive(keys: Seq<RankKey>, i: int, j: int, k: int)
    requires
        comes_before(keys, i, j),
        comes_before(keys, j, k),
    ensures
        comes_before(keys, i, k),
{
}

/// Of two different documents one comes before the other, and never both.
pub proof fn lemma_comes_before_is_total(keys: Seq<RankKey>, i: int, j: int)
    ensures
        i != j ==> (comes_before(keys, i, j) <==> !comes_before(keys, j, i)),
        !comes_before(keys, i, i),
{
}

proof fn lemma_insert_contains(s: Seq<usize>, p: int, x: usize, y: usize)
    requires
        0 <= p <= s.len(),
    ensures
        s.insert(p, x).contains(y) <==> (s.contains(y) || y == x),
{
    let t = s.insert(p, x);
    if t.contains(y) {
        let i = choose|i: int| 0 <= i < t.len() && t[i] == y;
        if i < p {
            assert(s[i] == y);
        } else if i > p {
            assert(s[i - 1] == y);
        }
    }
    if s.contains(y) {
        let i = choose|i: int| 0 <= i < s.len() && s[i] == y;
        if i < p {
            assert(t[i] == y);
        } else {
            assert(t[i + 1] == y);
        }
    }
    if y == x {
        assert(t[p] == y);
    }
}

proof fn lemma_drop_last_contains(s: Seq<usize>, y: usize)
    requires
        s.len() > 0,
    ensures
        s.contains(y) <==> (s.drop_last().contains(y) || y == s.last()),
{
    let t = s.drop_last();
    if s.contains(y) {
        let i = choose|i: int| 0 <= i < s.len() && s[i] == y;
        if i < s.len() - 1 {
            assert(t[i] == y);
        }
    }
    if t.contains(y) {
        let i = choose|i: int| 0 <= i < t.len() && t[i] == y;
        assert(s[i] == y);
    }
}

/// Ranks the matching documents and hands out the best of them.
///
/// `keys[i]` is the key of document `i`. The result lists the numbers of
/// the best-ranked documents, best first: as many as there are documents,
/// but no more than `limit` and never more than `MAX_RESULTS`. A limit of
/// zero or less, and a search without match, give an empty list.
pub fn rank_matches(keys: &Vec<RankKey>, limit: i64) -> (order: Vec<usize>)
    ensures
        is_ranking(keys@, order@),
        order.len() == if keys.len() <= result_cap(limit as int) {
            keys.len() as nat
        } else {
            result_cap(limit as int)
        },
        order.len() <= MAX_RESULTS,
        keys.len() == 0 ==> order.len() == 0,
{
    let cap: usize = result_count(limit);
    let mut order: Vec<usize> = Vec::new();
    if cap == 0 {
        return order;
    }
    let mut next: usize = 0;
    while next < keys.len()
        invariant
            next <= keys.len(),
            0 < cap == result_cap(limit as int),
            order.len() == if next <= cap {
                next
            } else {
                cap
            },
            forall|i: int| 0 <= i < order.len() ==> #[trigger] order[i] < next,
            forall|i: int, j: int|
                0 <= i < j < order.len() ==> comes_before(
                    keys@,
                    #[trigger] order[i] as int,
                    #[trigger] order[j] as int,
                ),
            forall|i: int, k: usize|
                0 <= i < order.len() && k < next && !#[trigger] order@.contains(k)
                    ==> comes_before(keys@, #[trigger] order[i] as int, k as int),
            next <= cap ==> forall|k: usize| k < next ==> #[trigger] order@.contains(k),
        decreases keys.len() - next,
    {
        let ghost old_order = order@;
        let len: usize = order.len();
        let mut place: usize = 0;
        while place < len && !ranks_above(&keys[next], &keys[order[place]])
            invariant
                place <= len == order.len(),
                next < keys.len(),
                order@ == old_order,
                forall|i: int| 0 <= i < order.len() ==> #[trigger] order[i] < next,
                forall|i: int|
                    0 <= i < place ==> comes_before(keys@, #[trigger] order[i] as int, next as int),
            decreases len - place,
        {
            place += 1;
        }
        proof {
            assert forall|j: int| place <= j < len implies comes_before(
                keys@,
                next as int,
                #[trigger] old_order[j] as int,
            ) by {
                if j > place {
                    lemma_comes_before_is_transitive(
                        keys@,
                        next as int,
                        old_order[place as int] as int,
                        old_order[j] as int,
                    );
                }
            }
        }
        if place == len && len == cap {
            proof {
                assert forall|i: int, k: usize|
                    0 <= i < order.len() && k < next + 1 && !#[trigger] order@.contains(
                        k,
                    ) implies comes_before(keys@, #[trigger] order[i] as int, k as int) by {
                    if k == next {
                    }
                }
            }
        } else {
            order.insert(place, next);
            let ghost grown = order@;
            proof {
                assert forall|y: usize| grown.contains(y) <==> (old_order.contains(y) || y
                    == next) by {
                    lemma_insert_contains(old_order, place as int, next, y);
                }
                assert forall|i: int, j: int| 0 <= i < j < grown.len() implies comes_before(
                    keys@,
                    #[trigger] grown[i] as int,
                    #[trigger] grown[j] as int,
                ) by {
                    if j < place {
                        assert(grown[i] == old_order[i] && grown[j] == old_order[j]);
                    } else if j == place {
                        assert(grown[i] == old_order[i]);
                    } else if i < place {
                        assert(grown[i] == old_order[i] && grown[j] == old_order[j - 1]);
                    } else if i == place {
                        assert(grown[j] == old_order[j - 1]);
                    } else {
                        assert(grown[i] == old_order[i - 1] && grown[j] == old_order[j - 1]);
                    }
                }
                assert forall|i: int, k: usize|
                    0 <= i < grown.len() && k < next + 1 && !#[trigger] grown.contains(
                        k,
                    ) implies comes_before(keys@, #[trigger] grown[i] as int, k as int) by {
                    assert(!old_order.contains(k));
                    if i < place {
                        assert(grown[i] == old_order[i]);
                    } else if i > place {
                        assert(grown[i] == old_order[i - 1]);
                    } else {
                        // the new document comes before the last of the old
                        // ones, and that one before every document left out
                        assert(place < len);
                        let last = old_order[len - 1];
                        assert(comes_before(keys@, last as int, k as int));
                        assert(comes_before(keys@, next as int, last as int));
                        lemma_comes_before_is_transitive(
                            keys@,
                            next as int,
                            last as int,
                            k as int,
                        );
                    }
                }
            }
            if order.len() > cap {
                let dropped = order.pop();
                proof {
                    assert(order@ == grown.drop_last());
                    assert forall|i: int, k: usize|
                        0 <= i < order.len() && k < next + 1 && !#[trigger] order@.contains(
                            k,
                        ) implies comes_before(keys@, #[trigger] order[i] as int, k as int) by {
                        lemma_drop_last_contains(grown, k);
                        assert(order[i] == grown[i]);
                        if grown.contains(k) {
                            assert(k == grown.last());
                            assert(comes_before(keys@, grown[i] as int, grown[grown.len() - 1] as int));
                        }
                    }
                    assert forall|i: int, j: int| 0 <= i < j < order.len() implies comes_before(
                        keys@,
                        #[trigger] order[i] as int,
                        #[trigger] order[j] as int,
                    ) by {
                        assert(order[i] == grown[i] && order[j] == grown[j]);
                    }
                }
            }
        }
        next += 1;
    }
    order
}

/// A document whose title begins with the query stands before every
/// document whose title does not, whatever their relevance.
pub proof fn lemma_title_prefix_ranks_first(
    keys: Seq<RankKey>,
    order: Seq<usize>,
    i: int,
    j: int,
)
    requires
        is_ranking(keys, order),
        0 <= i < order.len(),
        0 <= j < order.len(),
        keys[order[i] as int].title_prefix,
        !keys[order[j] as int].title_prefix,
    ensures
        i < j,
{
    if j < i {
        assert(comes_before(keys, order[j] as int, order[i] as int));
    }
}

/// Where a document whose title does not begin with the query is handed
/// out, no document whose title does is left out.
pub proof fn lemma_title_prefix_is_not_left_out(
    keys: Seq<RankKey>,
    order: Seq<usize>,
    k: usize,
    j: int,
)
    requires
        is_ranking(keys, order),
        k < keys.len(),
        keys[k as int].title_prefix,
        0 <= j < order.len(),
        !keys[order[j] as int].title_prefix,
    ensures
        order.contains(k),
{
    if !order.contains(k) {
        assert(comes_before(keys, order[j] as int, k as int));
    }
}

/// The ranking is determined: two lists of one length that both rank the
/// same documents are the same list.
pub proof fn lemma_ranking_is_unique(keys: Seq<RankKey>, a: Seq<usize>, b: Seq<usize>)
    requires
        is_ranking(keys, a),
        is_ranking(keys, b),
        a.len() == b.len(),
    ensures
        a == b,
{
    lemma_rankings_agree(keys, a, b, a.len() as int);
    assert(a =~= b);
}

proof fn lemma_rankings_agree(keys: Seq<RankKey>, a: Seq<usize>, b: Seq<usize>, n: int)
    requires
        is_ranking(keys, a),
        is_ranking(keys, b),
        a.len() == b.len(),
        0 <= n <= a.len(),
    ensures
        forall|i: int| 0 <= i < n ==> a[i] == b[i],
    decreases n,
{
    if n > 0 {
        lemma_rankings_agree(keys, a, b, n - 1);
        let x = a[n - 1];
        let y = b[n - 1];
        if x != y {
            lemma_stands_behind(keys, a, b, n - 1);
            lemma_stands_behind(keys, b, a, n - 1);
            lemma_comes_before_is_total(keys, x as int, y as int);
        }
    }
}

/// Where two rankings agree up to place `n` and differ there, the entry of
/// the second at `n` comes before that of the first.
proof fn lemma_stands_behind(keys: Seq<RankKey>, a: Seq<usize>, b: Seq<usize>, n: int)
    requires
        is_ranking(keys, a),
        is_ranking(keys, b),
        a.len() == b.len(),
        0 <= n < a.len(),
        forall|i: int| 0 <= i < n ==> a[i] == b[i],
        a[n] != b[n],
    ensures
        comes_before(keys, b[n] as int, a[n] as int),
{
    let x = a[n];
    if b.contains(x) {
        let j = choose|j: int| 0 <= j < b.len() && b[j] == x;
        if j < n {
            assert(a[j] == x);
            assert(comes_before(keys, a[j] as int, a[n] as int));
            lemma_comes_before_is_total(keys, x as int, x as int);
        }
        assert(comes_before(keys, b[n] as int, b[j] as int));
    } else {
        assert(comes_before(keys, b[n] as int, x as int));
    }
}

} // verus!
