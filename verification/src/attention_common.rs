//! How decoding divides attention heads among workers.

use vstd::prelude::*;

use crate::arith::{max_of, max_usize, min_of, min_usize};

verus! {

/// From how many heads on decoding may divide them.
pub const DECODE_HEAD_PAR_MIN_HEADS: usize = 8;

/// From how many cached positions on decoding divides the heads.
pub const DECODE_HEAD_PAR_CONTEXT_THRESHOLD: usize = 256;

/// Up to how many cached positions a head sums its values column by column.
pub const DECODE_ATTN_SMALL_CONTEXT_THRESHOLD: usize = 64;

/// The number of workers among which the heads are divided: no more than there are
/// heads, and at least one.
pub fn decode_head_parallel_workers(pool_workers: usize, num_heads: usize) -> (workers: usize)
    ensures
        workers == max_of(min_of(pool_workers as int, num_heads as int), 1),
{
    max_usize(min_usize(pool_workers, num_heads), 1)
}

/// Whether decoding divides the heads: there is more than one worker, there are enough
/// heads, and enough positions are cached.
pub fn should_parallelize_decode_heads(num_heads: usize, cached_len: usize, workers: usize) -> (b: bool)
    ensures
        b == (workers > 1 && num_heads >= 8 && cached_len >= 256),
{
    if workers <= 1 || num_heads < DECODE_HEAD_PAR_MIN_HEADS || cached_len == 0 {
        return false;
    }
    cached_len >= DECODE_HEAD_PAR_CONTEXT_THRESHOLD
}

/// How a head sums its values.
#[derive(Clone, Copy, Debug, PartialEq, Eq, Structural)]
pub enum ValueOrder {
    /// One output element at a time.
    ColumnByColumn,
    /// One cached position at a time.
    RowByRow,
}

/// How a head sums the values of `cached_len` positions.
pub fn value_order(cached_len: usize) -> (order: ValueOrder)
    ensures
        order == (if cached_len <= 64 {
            ValueOrder::ColumnByColumn
        } else {
            ValueOrder::RowByRow
        }),
{
    if cached_len <= DECODE_ATTN_SMALL_CONTEXT_THRESHOLD {
        ValueOrder::ColumnByColumn
    } else {
        ValueOrder::RowByRow
    }
}

/// Heads are divided only among as many workers as can each have one, and never by
/// one worker alone.
pub proof fn law_divided_heads_have_workers(num_heads: int, cached_len: int, pool_workers: int)
    requires
        pool_workers > 1 && num_heads >= 8 && cached_len >= 256,
    ensures
        2 <= max_of(min_of(pool_workers, num_heads), 1) <= num_heads,
        max_of(min_of(pool_workers, num_heads), 1) <= pool_workers,
{
}

} // verus!
