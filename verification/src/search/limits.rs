//! How many results a request gets.

use vstd::prelude::*;

verus! {

/// The most results that one request gets, whatever it asks for.
pub const MAX_RESULTS: i64 = 100;

/// The number of results that a request gets where it names none.
pub const DEFAULT_LIMIT: i64 = 50;

/// The number of history entries and feed posts that a request gets where
/// it names none.
pub const DEFAULT_SHORT_LIMIT: i64 = 20;

/// The number of verses that a concordance lookup gets where the request
/// names none.
pub const DEFAULT_CONCORDANCE_LIMIT: i64 = 100;

/// A requested limit, held down to `MAX_RESULTS`.
pub open spec fn clamped(limit: int) -> int {
    if limit < MAX_RESULTS {
        limit
    } else {
        MAX_RESULTS as int
    }
}

/// The number of results that a limit lets through: none for a limit of
/// zero or less, and never more than `MAX_RESULTS`.
pub open spec fn result_cap(limit: int) -> nat {
    if limit <= 0 {
        0
    } else {
        clamped(limit) as nat
    }
}

/// Holds a requested limit down to `MAX_RESULTS`.
pub fn clamp_limit(limit: i64) -> (clamped_limit: i64)
    ensures
        clamped_limit == clamped(limit as int),
        clamped_limit <= MAX_RESULTS,
{
    if limit < MAX_RESULTS {
        limit
    } else {
        MAX_RESULTS
    }
}

/// The limit of a listing: the requested one, or `DEFAULT_LIMIT` where the
/// request names none, held down to `MAX_RESULTS`.
pub fn page_limit(limit: Option<i64>) -> (page: i64)
    ensures
        page == match limit {
            Some(n) => clamped(n as int),
            None => DEFAULT_LIMIT as int,
        },
        page <= MAX_RESULTS,
{
    match limit {
        Some(n) => clamp_limit(n),
        None => DEFAULT_LIMIT,
    }
}

/// The offset of a listing: the requested one, or 0 where the request
/// names none.
pub fn page_offset(offset: Option<i64>) -> (first: i64)
    ensures
        first == match offset {
            Some(n) => n,
            None => 0,
        },
{
    match offset {
        Some(n) => n,
        None => 0,
    }
}

/// The number of results that a limit lets through.
pub fn result_count(limit: i64) -> (count: usize)
    ensures
        count == result_cap(limit as int),
        count <= MAX_RESULTS,
{
    if limit <= 0 {
        0
    } else if limit < MAX_RESULTS {
        limit as usize
    } else {
        MAX_RESULTS as usize
    }
}

} // verus!
