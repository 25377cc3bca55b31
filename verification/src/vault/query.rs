//! Paging through the stored pools.
use vstd::prelude::*;

verus! {

/// Pools in a page when no limit is given.
pub const DEFAULT_LIMIT: u32 = 10;
/// The most pools in a page.
pub const MAX_LIMIT: u32 = 30;

/// The size of a page asked for: by default 10, never more than 30.
pub open spec fn page_limit(limit: Option<u32>) -> u32 {
    let l = limit.unwrap_or(DEFAULT_LIMIT);
    if l < MAX_LIMIT { l } else { MAX_LIMIT }
}

/// The ids of the pools in a page: from the one after `start_after` (after
/// none: from 1), at most `limit` of them (by default 10, never more than
/// 30), and below `next_pool_id`. Returns the range `[start, end)`; it is
/// empty where `end <= start`.
pub fn pool_id_range(start_after: Option<u128>, limit: Option<u32>, next_pool_id: u128) -> (r: (u128, u128))
    requires
        start_after.unwrap_or(0) + 1 + page_limit(limit) <= u128::MAX,
    ensures
        r.0 == start_after.unwrap_or(0) + 1,
        r.1 == if r.0 + page_limit(limit) > next_pool_id { next_pool_id as int } else { r.0 + page_limit(limit) },
{
    let l0 = match limit {
        Some(l) => l,
        None => DEFAULT_LIMIT,
    };
    let l = if l0 < MAX_LIMIT { l0 } else { MAX_LIMIT };
    let start = match start_after {
        Some(s) => s,
        None => 0,
    } + 1;
    let mut end = start + l as u128;
    if end > next_pool_id {
        end = next_pool_id;
    }
    (start, end)
}

} // verus!
