//! Eviction of cached positions that attention has little use for.
//!
//! When the cache outgrows its budget, the first few positions and a window of
//! recent ones stay, and of the positions between them those with the highest
//! scores. The positions that stay are then moved together.

use vstd::prelude::*;

use crate::arith::{max_of, min_of};
use crate::float_order::{exceeds, order_key};
use crate::hugepages::HugeVec;
use crate::kv_cache::{
    head_contents, vec_contents, KvContents, KvLayerData, KvQuantType, KvStore, LayerContents,
};

verus! {

/// How many of the first positions always stay.
pub const H2O_SINK_COUNT: usize = 8;

/// How many of the last positions always stay.
pub const H2O_RECENT_WINDOW: usize = 128;

/// The difference, or 0 where it would be negative.
pub open spec fn monus(a: int, b: int) -> int {
    if a >= b {
        a - b
    } else {
        0
    }
}

/// The three late layers whose queries score the cached positions.
pub fn probe_layers(num_layers: usize) -> (layers: [usize; 3])
    ensures
        layers@ == seq![
            monus(num_layers as int, 8) as usize,
            monus(num_layers as int, 4) as usize,
            monus(num_layers as int, 1) as usize,
        ],
        num_layers >= 8 ==> layers@[0] == num_layers - 8 && layers@[1] == num_layers - 4
            && layers@[2] == num_layers - 1,
        4 <= num_layers < 8 ==> layers@[0] == 0 && layers@[1] == num_layers - 4 && layers@[2]
            == num_layers - 1,
        0 < num_layers < 4 ==> layers@[0] == 0 && layers@[1] == 0 && layers@[2] == num_layers - 1,
        num_layers == 0 ==> layers@[0] == 0 && layers@[1] == 0 && layers@[2] == 0,
{
    [num_layers.saturating_sub(8), num_layers.saturating_sub(4), num_layers.saturating_sub(1)]
}

/// By how much the cache may outgrow its budget before anything is evicted.
pub fn hysteresis(budget: usize) -> (slack: usize)
    ensures
        slack == min_of(budget as int / 8, 512),
{
    let part: usize = budget / 8;
    if part <= 512 {
        part
    } else {
        512
    }
}

/// Whether a cache of `seq_len` positions has outgrown its budget by so much that it
/// evicts.
pub open spec fn evicts_at(budget: int, seq_len: int) -> bool {
    seq_len > budget + min_of(budget / 8, 512)
}

/// The number of first positions that stay.
pub open spec fn sink_count(cached_len: int) -> int {
    min_of(8, cached_len)
}

/// The first position that stays for being recent.
pub open spec fn middle_end(cached_len: int) -> int {
    max_of(monus(cached_len, 128), sink_count(cached_len))
}

/// How many positions between the first and the recent ones may stay.
pub open spec fn middle_budget(budget: int, cached_len: int) -> int {
    monus(
        monus(budget, sink_count(cached_len)),
        min_of(128, cached_len - monus(cached_len, 128)),
    )
}

/// How many positions stay.
pub open spec fn kept_count(budget: int, cached_len: int) -> int {
    let middle = middle_end(cached_len) - sink_count(cached_len);
    sink_count(cached_len) + min_of(middle_budget(budget, cached_len), middle) + (cached_len
        - middle_end(cached_len))
}

/// Whether the positions ascend.
pub open spec fn ascending(kept: Seq<u32>) -> bool {
    forall|i: int, j: int| 0 <= i < j < kept.len() ==> #[trigger] kept[i] < #[trigger] kept[j]
}

/// The key that orders the score of position `p`.
pub open spec fn score_key(scores: Seq<u32>, p: int) -> int {
    crate::float_order::order_key_spec(scores[p])
}

/// `kept` is a right choice: ascending, of the right size, with all first and all
/// recent positions, and with no position of the middle left out that scores higher
/// than one taken.
pub open spec fn is_selection(scores: Seq<u32>, budget: int, cached_len: int, kept: Seq<u32>) -> bool {
    &&& ascending(kept)
    &&& kept.len() == kept_count(budget, cached_len)
    &&& forall|i: int| 0 <= i < kept.len() ==> #[trigger] kept[i] < cached_len
    &&& forall|p: u32|
        p < sink_count(cached_len) || middle_end(cached_len) <= p < cached_len
            ==> #[trigger] kept.contains(p)
    &&& forall|p: u32, q: u32|
        sink_count(cached_len) <= p < middle_end(cached_len) && sink_count(cached_len) <= q
            < middle_end(cached_len) && #[trigger] kept.contains(p) && !#[trigger] kept.contains(q)
            ==> score_key(scores, p as int) >= score_key(scores, q as int)
}

/// How many of the positions from `start` up to `end` score `bar` or more.
pub open spec fn count_at_least(scores: Seq<u32>, start: int, end: int, bar: int) -> int
    decreases end - start,
{
    if end <= start {
        0
    } else {
        count_at_least(scores, start, end - 1, bar) + if score_key(scores, end - 1) >= bar {
            1int
        } else {
            0int
        }
    }
}

proof fn lemma_count_bounds(scores: Seq<u32>, start: int, end: int, bar: int)
    requires
        start <= end,
    ensures
        0 <= count_at_least(scores, start, end, bar) <= end - start,
    decreases end - start,
{
    if end > start {
        lemma_count_bounds(scores, start, end - 1, bar);
    }
}

/// Every score is at least the lowest key and none reaches past the highest.
proof fn lemma_count_extremes(scores: Seq<u32>, start: int, end: int)
    requires
        start <= end,
    ensures
        count_at_least(scores, start, end, -0x8000_0000) == end - start,
        count_at_least(scores, start, end, 0x8000_0000) == 0,
    decreases end - start,
{
    if end > start {
        lemma_count_extremes(scores, start, end - 1);
    }
}

/// Counts the positions that score `bar` or more.
fn count_scores(scores: &[u32], start: usize, end: usize, bar: i64) -> (n: usize)
    requires
        start <= end <= scores@.len(),
    ensures
        n == count_at_least(scores@, start as int, end as int, bar as int),
        n <= end - start,
{
    let mut n: usize = 0;
    let mut p: usize = start;
    while p < end
        invariant
            start <= p <= end <= scores@.len(),
            n == count_at_least(scores@, start as int, p as int, bar as int),
            n <= p - start,
        decreases end - p,
    {
        if order_key(scores[p]) >= bar {
            n = n + 1;
        }
        p = p + 1;
    }
    n
}

/// The highest bar that at least `wanted` positions clear.
fn find_bar(scores: &[u32], start: usize, end: usize, wanted: usize) -> (bar: i64)
    requires
        start <= end <= scores@.len(),
        0 < wanted <= end - start,
    ensures
        -0x8000_0000 <= bar < 0x8000_0000,
        count_at_least(scores@, start as int, end as int, bar as int) >= wanted,
        count_at_least(scores@, start as int, end as int, bar + 1) < wanted,
{
    let mut low: i64 = -0x8000_0000;
    let mut high: i64 = 0x8000_0000;
    proof {
        lemma_count_extremes(scores@, start as int, end as int);
    }
    while low + 1 < high
        invariant
            start <= end <= scores@.len(),
            -0x8000_0000 <= low < high <= 0x8000_0000,
            count_at_least(scores@, start as int, end as int, low as int) >= wanted,
            count_at_least(scores@, start as int, end as int, high as int) < wanted,
        decreases high - low,
    {
        let mid: i64 = low + (high - low) / 2;
        if count_scores(scores, start, end, mid) >= wanted {
            low = mid;
        } else {
            high = mid;
        }
    }
    low
}

/// The `wanted` best positions of the middle, in ascending order.
fn select_middle(scores: &[u32], start: usize, end: usize, wanted: usize) -> (kept: Vec<u32>)
    requires
        start <= end <= scores@.len(),
        end <= u32::MAX,
        wanted <= end - start,
    ensures
        kept@.len() == wanted,
        ascending(kept@),
        forall|i: int| 0 <= i < kept@.len() ==> start <= #[trigger] kept@[i] < end,
        forall|p: u32, q: u32|
            start <= p < end && start <= q < end && #[trigger] kept@.contains(p)
                && !#[trigger] kept@.contains(q) ==> score_key(scores@, p as int) >= score_key(
                scores@,
                q as int,
            ),
{
    let mut kept: Vec<u32> = Vec::new();
    if wanted == 0 {
        return kept;
    }
    let bar: i64 = find_bar(scores, start, end, wanted);
    let above: usize = count_scores(scores, start, end, bar + 1);
    let mut ties: usize = wanted - above;
    let ghost room = ties as int;
    let mut p: usize = start;
    while p < end
        invariant
            start <= p <= end <= scores@.len(),
            end <= u32::MAX,
            0 <= ties <= room,
            kept@.len() == count_at_least(scores@, start as int, p as int, bar + 1) + (room - ties),
            ties > 0 ==> room - ties == count_at_least(scores@, start as int, p as int, bar as int)
                - count_at_least(scores@, start as int, p as int, bar + 1),
            ascending(kept@),
            forall|i: int| 0 <= i < kept@.len() ==> start <= #[trigger] kept@[i] < p,
            forall|i: int|
                0 <= i < kept@.len() ==> score_key(scores@, #[trigger] kept@[i] as int) >= bar,
            forall|q: u32|
                start <= q < p && !#[trigger] kept@.contains(q) ==> score_key(scores@, q as int)
                    <= bar,
        decreases end - p,
    {
        let key: i64 = order_key(scores[p]);
        let ghost before = kept@;
        if key > bar || (key == bar && ties > 0) {
            if key == bar {
                ties = ties - 1;
            }
            kept.push(p as u32);
            proof {
                assert forall|q: u32| start <= q <= p && !#[trigger] kept@.contains(q) implies score_key(
                    scores@,
                    q as int,
                ) <= bar by {
                    if q == p {
                        assert(kept@[before.len() as int] == q);
                    } else if before.contains(q) {
                        let i = choose|i: int| 0 <= i < before.len() && before[i] == q;
                        assert(kept@[i] == q);
                    }
                }
            }
        }
        p = p + 1;
    }
    proof {
        assert(kept@.len() == above + (room - ties));
        assert(ties == 0);
        assert forall|a: u32, b: u32|
            start <= a < end && start <= b < end && #[trigger] kept@.contains(a)
                && !#[trigger] kept@.contains(b) implies score_key(scores@, a as int) >= score_key(
            scores@,
            b as int,
        ) by {
            let i = choose|i: int| 0 <= i < kept@.len() && kept@[i] == a;
            assert(score_key(scores@, kept@[i] as int) >= bar);
        }
    }
    kept
}

/// Chooses the positions that stay: the first ones, the recent ones, and as many of
/// the best between them as the budget leaves room for. They come in ascending order.
pub fn select_kept(scores: &[u32], budget: usize, cached_len: usize) -> (kept: Vec<u32>)
    requires
        cached_len <= scores@.len(),
        cached_len <= u32::MAX,
    ensures
        is_selection(scores@, budget as int, cached_len as int, kept@),
{
    let sinks: usize = if H2O_SINK_COUNT <= cached_len { H2O_SINK_COUNT } else { cached_len };
    let recent_start: usize = cached_len.saturating_sub(H2O_RECENT_WINDOW);
    let end: usize = if recent_start >= sinks { recent_start } else { sinks };
    let recent: usize = cached_len - recent_start;
    let window: usize = if H2O_RECENT_WINDOW <= recent { H2O_RECENT_WINDOW } else { recent };
    let room: usize = budget.saturating_sub(sinks).saturating_sub(window);
    let wanted: usize = if room <= end - sinks { room } else { end - sinks };
    let middle = select_middle(scores, sinks, end, wanted);

    let mut kept: Vec<u32> = Vec::new();
    let mut i: usize = 0;
    while i < sinks
        invariant
            i <= sinks <= cached_len <= u32::MAX,
            kept@.len() == i,
            forall|j: int| 0 <= j < i ==> #[trigger] kept@[j] == j,
        decreases sinks - i,
    {
        kept.push(i as u32);
        i = i + 1;
    }
    let ghost front = kept@;
    let mut m: usize = 0;
    while m < middle.len()
        invariant
            m <= middle@.len(),
            kept@ == front + middle@.take(m as int),
        decreases middle@.len() - m,
    {
        kept.push(middle[m]);
        m = m + 1;
        assert(kept@ =~= front + middle@.take(m as int));
    }
    let ghost most = front + middle@;
    assert(middle@.take(m as int) =~= middle@);
    let mut p: usize = end;
    while p < cached_len
        invariant
            end <= p <= cached_len <= u32::MAX,
            kept@.len() == most.len() + (p - end),
            forall|j: int| 0 <= j < most.len() ==> #[trigger] kept@[j] == most[j],
            forall|j: int|
                most.len() <= j < kept@.len() ==> #[trigger] kept@[j] == end + (j - most.len()),
        decreases cached_len - p,
    {
        kept.push(p as u32);
        p = p + 1;
    }
    proof {
        let n = front.len() as int;
        let k = most.len() as int;
        assert forall|a: int, b: int| 0 <= a < b < kept@.len() implies #[trigger] kept@[a]
            < #[trigger] kept@[b] by {
            if a < n {
                assert(kept@[a] == front[a]);
                if b < n {
                    assert(kept@[b] == front[b]);
                } else if b < k {
                    assert(kept@[b] == middle@[b - n]);
                }
            } else if a < k {
                assert(kept@[a] == middle@[a - n]);
                if b < k {
                    assert(kept@[b] == middle@[b - n]);
                }
            }
        }
        assert forall|a: int| 0 <= a < kept@.len() implies #[trigger] kept@[a] < cached_len by {
            if a < n {
                assert(kept@[a] == front[a]);
            } else if a < k {
                assert(kept@[a] == middle@[a - n]);
            }
        }
        assert forall|q: u32| q < sinks || end <= q < cached_len implies #[trigger] kept@.contains(
            q,
        ) by {
            if q < sinks {
                assert(kept@[q as int] == front[q as int]);
            } else {
                assert(kept@[k + (q - end)] == q);
            }
        }
        assert forall|q: u32| sinks <= q < end implies #[trigger] kept@.contains(q)
            == middle@.contains(q) by {
            if kept@.contains(q) {
                let j = choose|j: int| 0 <= j < kept@.len() && kept@[j] == q;
                if j < n {
                    assert(kept@[j] == front[j]);
                } else if j < k {
                    assert(kept@[j] == middle@[j - n]);
                }
            }
            if middle@.contains(q) {
                let j = choose|j: int| 0 <= j < middle@.len() && middle@[j] == q;
                assert(kept@[n + j] == middle@[j]);
            }
        }
        assert forall|a: u32, b: u32|
            sinks <= a < end && sinks <= b < end && #[trigger] kept@.contains(a)
                && !#[trigger] kept@.contains(b) implies score_key(scores@, a as int) >= score_key(
            scores@,
            b as int,
        ) by {
            assert(middle@.contains(a) && !middle@.contains(b));
        }
    }
    kept
}

// ---------------------------------------------------------------------------
// Compaction
// ---------------------------------------------------------------------------

/// The rows of `buf`, each `width` wide, at the positions `kept`, in that order.
pub open spec fn kept_rows<T>(buf: Seq<T>, kept: Seq<u32>, width: int) -> Seq<T> {
    Seq::new((kept.len() * width) as nat, |i: int| buf[kept[i / width] * width + i % width])
}

/// Whether every position of `kept` has a row in `len` elements.
pub open spec fn rows_exist(len: int, kept: Seq<u32>, width: int) -> bool {
    forall|i: int| 0 <= i < kept.len() ==> (#[trigger] kept[i] + 1) * width <= len
}

/// Ascending positions never move up.
proof fn lemma_ascending_floor(kept: Seq<u32>, i: int)
    requires
        ascending(kept),
        0 <= i < kept.len(),
    ensures
        kept[i] >= i,
    decreases i,
{
    if i > 0 {
        lemma_ascending_floor(kept, i - 1);
        assert(kept[i - 1] < kept[i]);
    }
}

/// Moves the rows at the positions `kept` to the front of the buffer and drops the
/// rest.
fn keep_rows<T: Copy>(buf: &mut Vec<T>, kept: &[u32], width: usize)
    requires
        ascending(kept@),
        rows_exist(old(buf)@.len() as int, kept@, width as int),
    ensures
        final(buf)@ == kept_rows(old(buf)@, kept@, width as int),
{
    let ghost before = buf@;
    let count: usize = kept.len();
    if width == 0 || count == 0 {
        buf.truncate(0);
        proof {
            assert(kept@.len() * width == 0) by (nonlinear_arith)
                requires
                    width == 0 || kept@.len() == 0,
            ;
            assert(buf@ =~= kept_rows(before, kept@, width as int));
        }
        return;
    }
    let len: usize = buf.len();
    proof {
        lemma_ascending_floor(kept@, count - 1);
        assert((kept@[count - 1] + 1) * width <= len);
        let last = kept@[count - 1] as int;
        assert(count * width <= (last + 1) * width) by (nonlinear_arith)
            requires
                count <= last + 1,
                width >= 0,
        ;
        assert(0 * width == 0) by (nonlinear_arith);
    }
    let mut new_pos: usize = 0;
    while new_pos < count
        invariant
            new_pos <= count == kept@.len(),
            width > 0,
            ascending(kept@),
            rows_exist(len as int, kept@, width as int),
            count * width <= len,
            buf@.len() == before.len() == len,
            forall|i: int|
                0 <= i < new_pos * width ==> #[trigger] buf@[i] == before[kept@[i / width as int]
                    * width + i % width as int],
            forall|i: int| new_pos * width <= i < len ==> #[trigger] buf@[i] == before[i],
        decreases count - new_pos,
    {
        let old_pos: usize = kept[new_pos] as usize;
        proof {
            lemma_ascending_floor(kept@, new_pos as int);
            assert((kept@[new_pos as int] + 1) * width <= len);
            assert((old_pos + 1) * width == old_pos * width + width) by (nonlinear_arith);
            assert((new_pos + 1) * width == new_pos * width + width) by (nonlinear_arith);
            assert(0 <= new_pos * width <= old_pos * width) by (nonlinear_arith)
                requires
                    new_pos <= old_pos,
                    width >= 0,
            ;
        }
        let src: usize = old_pos * width;
        let dst: usize = new_pos * width;
        let ghost moved = buf@;
        let mut d: usize = 0;
        while d < width
            invariant
                d <= width,
                dst <= src,
                src + width <= len,
                dst == new_pos * width,
                buf@.len() == moved.len() == len,
                forall|i: int| 0 <= i < dst ==> #[trigger] buf@[i] == moved[i],
                forall|i: int| dst <= i < dst + d ==> #[trigger] buf@[i] == moved[src + (i - dst)],
                forall|i: int| dst + d <= i < len ==> #[trigger] buf@[i] == moved[i],
            decreases width - d,
        {
            let x = buf[src + d];
            buf.set(dst + d, x);
            d = d + 1;
        }
        proof {
            assert forall|i: int| 0 <= i < (new_pos + 1) * width implies #[trigger] buf@[i]
                == before[kept@[i / width as int] * width + i % width as int] by {
                if i >= dst {
                    vstd::arithmetic::div_mod::lemma_fundamental_div_mod_converse(
                        i,
                        width as int,
                        new_pos as int,
                        i - dst,
                    );
                    assert(buf@[i] == moved[src + (i - dst)]);
                    assert(moved[src + (i - dst)] == before[src + (i - dst)]);
                } else {
                    assert(buf@[i] == moved[i]);
                }
            }
        }
        new_pos = new_pos + 1;
    }
    buf.truncate(count * width);
    proof {
        assert(buf@ =~= kept_rows(before, kept@, width as int));
    }
}

/// Every part reduced to the rows at the positions `kept`.
pub open spec fn parts_kept<T>(parts: Seq<Seq<T>>, kept: Seq<u32>, width: int) -> Seq<Seq<T>> {
    Seq::new(parts.len(), |h: int| kept_rows(parts[h], kept, width))
}

/// Whether every part has a row for each position of `kept`.
pub open spec fn parts_reach<T>(parts: Seq<Seq<T>>, kept: Seq<u32>, width: int) -> bool {
    forall|h: int|
        0 <= h < parts.len() ==> rows_exist((#[trigger] parts[h]).len() as int, kept, width)
}

fn keep_head_rows<T: Copy>(heads: &mut Vec<HugeVec<T>>, kept: &[u32], width: usize)
    requires
        ascending(kept@),
        parts_reach(head_contents(old(heads)@), kept@, width as int),
    ensures
        head_contents(final(heads)@) == parts_kept(
            head_contents(old(heads)@),
            kept@,
            width as int,
        ),
{
    let ghost before = head_contents(heads@);
    let count: usize = heads.len();
    let mut h: usize = 0;
    while h < count
        invariant
            h <= count == heads@.len() == before.len(),
            ascending(kept@),
            parts_reach(before, kept@, width as int),
            forall|g: int|
                0 <= g < h ==> (#[trigger] heads@[g])@ == kept_rows(before[g], kept@, width as int),
            forall|g: int| h <= g < count ==> (#[trigger] heads@[g])@ == before[g],
        decreases count - h,
    {
        assert(rows_exist(before[h as int].len() as int, kept@, width as int));
        keep_rows(heads[h].inner_mut(), kept, width);
        h = h + 1;
    }
    proof {
        assert(head_contents(heads@) =~= parts_kept(before, kept@, width as int));
    }
}

fn keep_vec_rows<T: Copy>(vecs: &mut Vec<Vec<T>>, kept: &[u32], width: usize)
    requires
        ascending(kept@),
        parts_reach(vec_contents(old(vecs)@), kept@, width as int),
    ensures
        vec_contents(final(vecs)@) == parts_kept(vec_contents(old(vecs)@), kept@, width as int),
{
    let ghost before = vec_contents(vecs@);
    let count: usize = vecs.len();
    let mut h: usize = 0;
    while h < count
        invariant
            h <= count == vecs@.len() == before.len(),
            ascending(kept@),
            parts_reach(before, kept@, width as int),
            forall|g: int|
                0 <= g < h ==> (#[trigger] vecs@[g])@ == kept_rows(before[g], kept@, width as int),
            forall|g: int| h <= g < count ==> (#[trigger] vecs@[g])@ == before[g],
        decreases count - h,
    {
        assert(rows_exist(before[h as int].len() as int, kept@, width as int));
        keep_rows(&mut vecs[h], kept, width);
        h = h + 1;
    }
    proof {
        assert(vec_contents(vecs@) =~= parts_kept(before, kept@, width as int));
    }
}

/// A layer reduced to the positions `kept`.
pub open spec fn layer_kept<F>(layer: LayerContents<F>, kept: Seq<u32>, head_dim: int) -> LayerContents<
    F,
> {
    match layer {
        LayerContents::F32 { keys, values } => LayerContents::F32 {
            keys: parts_kept(keys, kept, head_dim),
            values: parts_kept(values, kept, head_dim),
        },
        LayerContents::BF16 { keys, values } => LayerContents::BF16 {
            keys: parts_kept(keys, kept, head_dim),
            values: parts_kept(values, kept, head_dim),
        },
        LayerContents::INT8 { keys, values, key_scales, value_scales } => LayerContents::INT8 {
            keys: parts_kept(keys, kept, head_dim),
            values: parts_kept(values, kept, head_dim),
            key_scales: parts_kept(key_scales, kept, 1),
            value_scales: parts_kept(value_scales, kept, 1),
        },
        LayerContents::INT4 { keys, values, key_scales, value_scales } => LayerContents::INT4 {
            keys: parts_kept(keys, kept, head_dim / 2),
            values: parts_kept(values, kept, head_dim / 2),
            key_scales: parts_kept(key_scales, kept, head_dim / 32),
            value_scales: parts_kept(value_scales, kept, head_dim / 32),
        },
    }
}

/// Whether a layer has every position of `kept`.
pub open spec fn layer_reaches<F>(layer: LayerContents<F>, kept: Seq<u32>, head_dim: int) -> bool {
    match layer {
        LayerContents::F32 { keys, values } => parts_reach(keys, kept, head_dim) && parts_reach(
            values,
            kept,
            head_dim,
        ),
        LayerContents::BF16 { keys, values } => parts_reach(keys, kept, head_dim) && parts_reach(
            values,
            kept,
            head_dim,
        ),
        LayerContents::INT8 { keys, values, key_scales, value_scales } => parts_reach(
            keys,
            kept,
            head_dim,
        ) && parts_reach(values, kept, head_dim) && parts_reach(key_scales, kept, 1)
            && parts_reach(value_scales, kept, 1),
        LayerContents::INT4 { keys, values, key_scales, value_scales } => parts_reach(
            keys,
            kept,
            head_dim / 2,
        ) && parts_reach(values, kept, head_dim / 2) && parts_reach(
            key_scales,
            kept,
            head_dim / 32,
        ) && parts_reach(value_scales, kept, head_dim / 32),
    }
}

/// Reduces a layer to the positions `kept`.
fn compact_layer<F: Copy>(layer: &mut KvLayerData<F>, kept: &[u32], head_dim: usize)
    requires
        ascending(kept@),
        layer_reaches(old(layer)@, kept@, head_dim as int),
    ensures
        final(layer)@ == layer_kept(old(layer)@, kept@, head_dim as int),
{
    match layer {
        KvLayerData::F32 { keys_per_head, values_per_head } => {
            keep_head_rows(keys_per_head, kept, head_dim);
            keep_head_rows(values_per_head, kept, head_dim);
        },
        KvLayerData::BF16 { keys_per_head, values_per_head } => {
            keep_head_rows(keys_per_head, kept, head_dim);
            keep_head_rows(values_per_head, kept, head_dim);
        },
        KvLayerData::INT8 { keys_per_head, values_per_head, keys_scales, values_scales } => {
            keep_head_rows(keys_per_head, kept, head_dim);
            keep_head_rows(values_per_head, kept, head_dim);
            keep_vec_rows(keys_scales, kept, 1);
            keep_vec_rows(values_scales, kept, 1);
        },
        KvLayerData::INT4 { keys_per_head, values_per_head, keys_scales, values_scales } => {
            keep_head_rows(keys_per_head, kept, head_dim / 2);
            keep_head_rows(values_per_head, kept, head_dim / 2);
            keep_vec_rows(keys_scales, kept, head_dim / 32);
            keep_vec_rows(values_scales, kept, head_dim / 32);
        },
    }
}

/// A store reduced to the positions `kept`. The count of positions is left as it was.
pub open spec fn store_kept<F>(store: KvContents<F>, kept: Seq<u32>, head_dim: int) -> KvContents<
    F,
> {
    KvContents {
        layers: Seq::new(
            store.layers.len(),
            |i: int| layer_kept(store.layers[i], kept, head_dim),
        ),
        keys: if store.kv_quant is BF16 {
            parts_kept(store.keys, kept, store.kv_dim as int)
        } else {
            store.keys
        },
        values: if store.kv_quant is BF16 {
            parts_kept(store.values, kept, store.kv_dim as int)
        } else {
            store.values
        },
        ..store
    }
}

/// Whether every layer, and every flat array where there are such, has every position
/// of `kept`.
pub open spec fn store_reaches<F>(store: KvContents<F>, kept: Seq<u32>, head_dim: int) -> bool {
    &&& forall|i: int|
        0 <= i < store.layers.len() ==> layer_reaches(#[trigger] store.layers[i], kept, head_dim)
    &&& store.kv_quant is BF16 ==> parts_reach(store.keys, kept, store.kv_dim as int)
        && parts_reach(store.values, kept, store.kv_dim as int)
}

/// Every part has at least `len` elements.
pub open spec fn parts_cover<T>(parts: Seq<Seq<T>>, len: int) -> bool {
    forall|h: int| 0 <= h < parts.len() ==> len <= (#[trigger] parts[h]).len()
}

/// The layer has at least `n` positions on every side.
pub open spec fn layer_covers<F>(layer: LayerContents<F>, n: int, head_dim: int) -> bool {
    match layer {
        LayerContents::F32 { keys, values } => parts_cover(keys, n * head_dim) && parts_cover(
            values,
            n * head_dim,
        ),
        LayerContents::BF16 { keys, values } => parts_cover(keys, n * head_dim) && parts_cover(
            values,
            n * head_dim,
        ),
        LayerContents::INT8 { keys, values, key_scales, value_scales } => parts_cover(
            keys,
            n * head_dim,
        ) && parts_cover(values, n * head_dim) && parts_cover(key_scales, n * 1) && parts_cover(
            value_scales,
            n * 1,
        ),
        LayerContents::INT4 { keys, values, key_scales, value_scales } => parts_cover(
            keys,
            n * (head_dim / 2),
        ) && parts_cover(values, n * (head_dim / 2)) && parts_cover(
            key_scales,
            n * (head_dim / 32),
        ) && parts_cover(value_scales, n * (head_dim / 32)),
    }
}

/// Every layer, and every flat array where there are such, has at least `n` positions.
pub open spec fn store_covers<F>(store: KvContents<F>, n: int, head_dim: int) -> bool {
    &&& forall|i: int|
        0 <= i < store.layers.len() ==> layer_covers(#[trigger] store.layers[i], n, head_dim)
    &&& store.kv_quant is BF16 ==> parts_cover(store.keys, n * store.kv_dim) && parts_cover(
        store.values,
        n * store.kv_dim,
    )
}

proof fn lemma_covered_parts_reach<T>(parts: Seq<Seq<T>>, n: int, kept: Seq<u32>, width: int)
    requires
        width >= 0,
        parts_cover(parts, n * width),
        forall|i: int| 0 <= i < kept.len() ==> #[trigger] kept[i] < n,
    ensures
        parts_reach(parts, kept, width),
{
    assert forall|h: int, i: int| 0 <= h < parts.len() && 0 <= i < kept.len() implies (
    #[trigger] kept[i] + 1) * width <= (#[trigger] parts[h]).len() by {
        let p = kept[i] as int;
        assert((p + 1) * width <= n * width) by (nonlinear_arith)
            requires
                p + 1 <= n,
                width >= 0,
        ;
    }
}

proof fn lemma_covered_layer_reaches<F>(
    layer: LayerContents<F>,
    n: int,
    kept: Seq<u32>,
    head_dim: int,
)
    requires
        head_dim >= 0,
        layer_covers(layer, n, head_dim),
        forall|i: int| 0 <= i < kept.len() ==> #[trigger] kept[i] < n,
    ensures
        layer_reaches(layer, kept, head_dim),
{
    match layer {
        LayerContents::F32 { keys, values } => {
            lemma_covered_parts_reach(keys, n, kept, head_dim);
            lemma_covered_parts_reach(values, n, kept, head_dim);
        },
        LayerContents::BF16 { keys, values } => {
            lemma_covered_parts_reach(keys, n, kept, head_dim);
            lemma_covered_parts_reach(values, n, kept, head_dim);
        },
        LayerContents::INT8 { keys, values, key_scales, value_scales } => {
            lemma_covered_parts_reach(keys, n, kept, head_dim);
            lemma_covered_parts_reach(values, n, kept, head_dim);
            lemma_covered_parts_reach(key_scales, n, kept, 1);
            lemma_covered_parts_reach(value_scales, n, kept, 1);
        },
        LayerContents::INT4 { keys, values, key_scales, value_scales } => {
            lemma_covered_parts_reach(keys, n, kept, head_dim / 2);
            lemma_covered_parts_reach(values, n, kept, head_dim / 2);
            lemma_covered_parts_reach(key_scales, n, kept, head_dim / 32);
            lemma_covered_parts_reach(value_scales, n, kept, head_dim / 32);
        },
    }
}

proof fn lemma_covered_store_reaches<F>(
    store: KvContents<F>,
    n: int,
    kept: Seq<u32>,
    head_dim: int,
)
    requires
        head_dim >= 0,
        store_covers(store, n, head_dim),
        forall|i: int| 0 <= i < kept.len() ==> #[trigger] kept[i] < n,
    ensures
        store_reaches(store, kept, head_dim),
{
    assert forall|i: int| 0 <= i < store.layers.len() implies layer_reaches(
        #[trigger] store.layers[i],
        kept,
        head_dim,
    ) by {
        lemma_covered_layer_reaches(store.layers[i], n, kept, head_dim);
    }
    if store.kv_quant is BF16 {
        lemma_covered_parts_reach(store.keys, n, kept, store.kv_dim as int);
        lemma_covered_parts_reach(store.values, n, kept, store.kv_dim as int);
    }
}

/// Reduces a store to the positions `kept`, moving them together in place.
pub fn compact<F: Copy>(kv: &mut KvStore<F>, kept: &[u32], head_dim: usize)
    requires
        ascending(kept@),
        store_reaches(old(kv)@, kept@, head_dim as int),
    ensures
        final(kv)@ == store_kept(old(kv)@, kept@, head_dim as int),
        *final(kv) == (KvStore {
            layer_data: final(kv).layer_data,
            keys: final(kv).keys,
            values: final(kv).values,
            ..*old(kv)
        }),
{
    let ghost before = kv@;
    let ghost whole = *kv;
    let count: usize = kv.layer_data.len();
    let mut i: usize = 0;
    while i < count
        invariant
            i <= count == kv.layer_data@.len() == before.layers.len(),
            ascending(kept@),
            store_reaches(before, kept@, head_dim as int),
            *kv == (KvStore { layer_data: kv.layer_data, ..whole }),
            forall|j: int|
                0 <= j < i ==> (#[trigger] kv.layer_data@[j])@ == layer_kept(
                    before.layers[j],
                    kept@,
                    head_dim as int,
                ),
            forall|j: int| i <= j < count ==> (#[trigger] kv.layer_data@[j])@ == before.layers[j],
        decreases count - i,
    {
        assert(layer_reaches(before.layers[i as int], kept@, head_dim as int));
        compact_layer(&mut kv.layer_data[i], kept, head_dim);
        i = i + 1;
    }
    if kv.kv_quant == KvQuantType::BF16 {
        let kv_dim: usize = kv.kv_dim;
        keep_vec_rows(&mut kv.keys, kept, kv_dim);
        keep_vec_rows(&mut kv.values, kept, kv_dim);
    }
    proof {
        let after = store_kept(before, kept@, head_dim as int);
        assert(kv@.layers =~= after.layers);
        assert(kv@ =~= after);
    }
}

/// Evicts what the budget has no room for and returns how many positions went. A
/// cache within its budget is left alone. `scores` holds one score for each position;
/// it is read only where the cache is over its budget.
pub fn h2o_evict<F: Copy>(kv: &mut KvStore<F>, head_dim: usize, scores: &[u32], budget: usize) -> (evicted:
    usize)
    requires
        old(kv).seq_len > budget ==> {
            &&& scores@.len() == old(kv).seq_len
            &&& old(kv).seq_len <= u32::MAX
            &&& store_covers(old(kv)@, old(kv).seq_len as int, head_dim as int)
        },
    ensures
        old(kv).seq_len <= budget ==> evicted == 0 && *final(kv) == *old(kv),
        old(kv).seq_len > budget ==> {
            &&& evicted == old(kv).seq_len - kept_count(budget as int, old(kv).seq_len as int)
            &&& final(kv).seq_len == kept_count(budget as int, old(kv).seq_len as int)
            &&& exists|kept: Seq<u32>|
                #![trigger store_kept(old(kv)@, kept, head_dim as int)]
                is_selection(scores@, budget as int, old(kv).seq_len as int, kept)
                    && final(kv)@ == (KvContents {
                    seq_len: final(kv).seq_len,
                    ..store_kept(old(kv)@, kept, head_dim as int)
                })
            &&& *final(kv) == (KvStore {
                layer_data: final(kv).layer_data,
                keys: final(kv).keys,
                values: final(kv).values,
                seq_len: final(kv).seq_len,
                ..*old(kv)
            })
        },
{
    let cached_len: usize = kv.seq_len;
    if cached_len <= budget {
        return 0;
    }
    let kept = select_kept(scores, budget, cached_len);
    let num_kept: usize = kept.len();
    proof {
        lemma_covered_store_reaches(kv@, cached_len as int, kept@, head_dim as int);
    }
    compact(kv, kept.as_slice(), head_dim);
    kv.seq_len = num_kept;
    cached_len - num_kept
}

// ---------------------------------------------------------------------------
// Laws
// ---------------------------------------------------------------------------

/// A cache that is over its budget stays within it after an eviction, unless the
/// positions that always stay already exceed it.
pub proof fn law_eviction_meets_the_budget(budget: int, cached_len: int)
    requires
        0 <= budget < cached_len,
    ensures
        kept_count(budget, cached_len) <= max_of(
            budget,
            sink_count(cached_len) + (cached_len - middle_end(cached_len)),
        ),
        kept_count(budget, cached_len) <= cached_len,
        budget >= 136 ==> kept_count(budget, cached_len) == budget,
{
}

/// Evictions do not follow each other step by step: after one, the cache takes in as many
/// positions as the slack has before it is so far over its budget again that it evicts.
/// A budget of fewer positions than always stay leaves less room than that, or none.
pub proof fn law_evictions_are_apart(budget: int, cached_len: int, steps: int)
    requires
        136 <= budget < cached_len,
        0 <= steps <= min_of(budget / 8, 512),
    ensures
        kept_count(budget, cached_len) + steps <= budget + min_of(budget / 8, 512),
        !evicts_at(budget, kept_count(budget, cached_len) + steps),
{
    law_eviction_meets_the_budget(budget, cached_len);
}

/// The first 8 positions and the last 128 are never evicted, whatever they score.
pub proof fn law_protected_positions_stay(
    scores: Seq<u32>,
    budget: int,
    cached_len: int,
    kept: Seq<u32>,
    p: u32,
)
    requires
        0 <= cached_len,
        is_selection(scores, budget, cached_len, kept),
        p < cached_len,
        p < 8 || p >= cached_len - 128,
    ensures
        kept.contains(p),
{
    assert(p < sink_count(cached_len) || middle_end(cached_len) <= p < cached_len);
}

/// Keeping every position changes nothing.
pub proof fn law_keeping_all_changes_nothing<T>(buf: Seq<T>, kept: Seq<u32>, width: int)
    requires
        width > 0,
        buf.len() == kept.len() * width,
        forall|i: int| 0 <= i < kept.len() ==> #[trigger] kept[i] == i,
    ensures
        kept_rows(buf, kept, width) == buf,
{
    assert forall|i: int| 0 <= i < buf.len() implies #[trigger] kept_rows(buf, kept, width)[i]
        == buf[i] by {
        vstd::arithmetic::div_mod::lemma_fundamental_div_mod(i, width);
        let count = kept.len() as int;
        assert(count * width == width * count) by (nonlinear_arith);
        vstd::arithmetic::div_mod::lemma_multiply_divide_lt(i, width, count);
        vstd::arithmetic::div_mod::lemma_div_pos_is_pos(i, width);
        assert(kept[i / width] == i / width);
        assert((i / width) * width == width * (i / width)) by (nonlinear_arith);
    }
    assert(kept_rows(buf, kept, width) =~= buf);
}

/// The positions that stay keep their order and their contents: new row `j` is old
/// row `kept[j]`.
pub proof fn law_kept_rows_are_old_rows<T>(buf: Seq<T>, kept: Seq<u32>, width: int, j: int)
    requires
        width > 0,
        rows_exist(buf.len() as int, kept, width),
        0 <= j < kept.len(),
    ensures
        kept_rows(buf, kept, width).subrange(j * width, (j + 1) * width) == buf.subrange(
            kept[j] * width,
            (kept[j] + 1) * width,
        ),
{
    let new = kept_rows(buf, kept, width);
    assert((kept[j] + 1) * width <= buf.len());
    assert((j + 1) * width == j * width + width && 0 <= j * width) by (nonlinear_arith)
        requires
            j >= 0,
            width > 0,
    ;
    assert((j + 1) * width <= kept.len() * width) by (nonlinear_arith)
        requires
            j + 1 <= kept.len(),
            width > 0,
    ;
    let old_row = kept[j] as int;
    assert((old_row + 1) * width == old_row * width + width && 0 <= old_row * width)
        by (nonlinear_arith)
        requires
            old_row >= 0,
            width > 0,
    ;
    assert forall|d: int| 0 <= d < width implies #[trigger] new[j * width + d] == buf[old_row
        * width + d] by {
        vstd::arithmetic::div_mod::lemma_fundamental_div_mod_converse(j * width + d, width, j, d);
    }
    let a = new.subrange(j * width, (j + 1) * width);
    let b = buf.subrange(old_row * width, (old_row + 1) * width);
    assert forall|d: int| 0 <= d < width implies #[trigger] a[d] == b[d] by {
        assert(a[d] == new[j * width + d]);
    }
    assert(a =~= b);
}

/// Taking away stops at zero.
pub proof fn law_taking_away(a: int, b: int)
    requires
        a >= 0,
        b >= 0,
    ensures
        monus(a, b) >= 0,
        monus(a, b) >= a - b,
        monus(a, b) == 0 || monus(a, b) + b == a,
{
}

/// Positions are evicted when the sequence is longer than the budget by more than an
/// eighth of it, but by more than 512 positions where the budget is large.
pub proof fn law_eviction_waits_for_slack(budget: int, seq_len: int)
    requires
        budget >= 0,
    ensures
        budget < 4104 ==> (evicts_at(budget, seq_len) <==> 8 * (seq_len - budget) >= budget
            - budget % 8 + 8),
        budget >= 4096 ==> (evicts_at(budget, seq_len) <==> seq_len - budget > 512),
{
}

/// How many positions are kept: all of a short sequence, which has none beyond the first
/// 8 and the last 128; of a longer one as many as the budget says, but no fewer than
/// those, and no more than there are.
pub proof fn law_kept_count_is_the_budget(budget: int, cached_len: int)
    requires
        budget >= 0,
        cached_len >= 0,
    ensures
        cached_len <= 136 ==> kept_count(budget, cached_len) == cached_len,
        cached_len > 136 && budget <= 136 ==> kept_count(budget, cached_len) == 136,
        cached_len > 136 && 136 <= budget <= cached_len ==> kept_count(budget, cached_len)
            == budget,
        cached_len > 136 && budget >= cached_len ==> kept_count(budget, cached_len) == cached_len,
{
}

/// A selection lists positions of the cache in rising order. What it leaves out lies
/// behind the first 8 and before the last 128 positions, and scores no more than what it
/// keeps there.
pub proof fn law_selection_keeps_the_best(
    scores: Seq<u32>,
    budget: int,
    cached_len: int,
    kept: Seq<u32>,
    i: int,
    j: int,
    q: u32,
)
    requires
        cached_len >= 0,
        budget >= 0,
        is_selection(scores, budget, cached_len, kept),
        0 <= i < j < kept.len(),
        q < cached_len,
        forall|k: int| 0 <= k < kept.len() ==> #[trigger] kept[k] != q,
    ensures
        kept[i] < kept[j] < cached_len,
        8 <= q < cached_len - 128,
        8 <= kept[i] < cached_len - 128 ==> !exceeds(scores[q as int], scores[kept[i] as int]),
        8 <= kept[j] < cached_len - 128 ==> !exceeds(scores[q as int], scores[kept[j] as int]),
{
    assert(kept.contains(kept[i]));
    assert(kept.contains(kept[j]));
    assert(!kept.contains(q));
    if q < 8 || q >= cached_len - 128 {
        law_protected_positions_stay(scores, budget, cached_len, kept, q);
    }
    if 8 <= kept[i] < cached_len - 128 {
        assert(score_key(scores, kept[i] as int) >= score_key(scores, q as int));
    }
    if 8 <= kept[j] < cached_len - 128 {
        assert(score_key(scores, kept[j] as int) >= score_key(scores, q as int));
    }
}

/// A selection names positions of the cache in rising order, as many as are kept.
pub proof fn law_selection_rises(
    scores: Seq<u32>,
    budget: int,
    cached_len: int,
    kept: Seq<u32>,
    i: int,
    j: int,
)
    requires
        is_selection(scores, budget, cached_len, kept),
        0 <= i < j < kept.len(),
    ensures
        kept[i] < kept[j] < cached_len,
        kept.len() == kept_count(budget, cached_len),
{
}

/// A selection has as many positions as are kept.
pub proof fn law_selection_has_the_kept_count(
    scores: Seq<u32>,
    budget: int,
    cached_len: int,
    kept: Seq<u32>,
)
    requires
        136 <= budget <= cached_len,
        is_selection(scores, budget, cached_len, kept),
    ensures
        kept.len() == budget,
{
}

proof fn lemma_part_kept<T>(parts: Seq<Seq<T>>, kept: Seq<u32>, width: int, h: int, j: int, d: int)
    requires
        0 <= h,
        0 <= j < kept.len(),
        width >= 0,
    ensures
        parts_kept(parts, kept, width).len() == parts.len(),
        h < parts.len() ==> parts_kept(parts, kept, width)[h].len() == kept.len() * width && (0 <= d
            < width ==> parts_kept(parts, kept, width)[h][j * width + d] == parts[h][kept[j] * width
            + d]),
{
    assert(kept.len() * width >= 0) by (nonlinear_arith)
        requires
            width >= 0,
            kept.len() >= 0,
    ;
    if 0 <= d < width {
        assert(0 <= j * width && j * width + width <= kept.len() * width) by (nonlinear_arith)
            requires
                0 <= j < kept.len(),
                width > 0,
        ;
        vstd::arithmetic::div_mod::lemma_fundamental_div_mod_converse(j * width + d, width, j, d);
    }
}

/// A compacted layer has, in every head, the kept positions behind each other and nothing
/// else: position `j` is what position `kept[j]` was, its keys, its values and its scales.
pub proof fn law_compacted_layer_has_the_kept_positions<F>(
    layer: LayerContents<F>,
    kept: Seq<u32>,
    head_dim: int,
    h: int,
    j: int,
    d: int,
)
    requires
        head_dim >= 0,
        0 <= h,
        0 <= j < kept.len(),
    ensures
        match (layer, layer_kept(layer, kept, head_dim)) {
            (
                LayerContents::F32 { keys, values },
                LayerContents::F32 { keys: keys2, values: values2 },
            ) => {
                &&& keys2.len() == keys.len()
                &&& h < keys.len() ==> keys2[h].len() == kept.len() * (head_dim) && (0 <= d < head_dim
                    ==> keys2[h][j * (head_dim) + d] == keys[h][kept[j] * (head_dim) + d])
                &&& values2.len() == values.len()
                &&& h < values.len() ==> values2[h].len() == kept.len() * (head_dim) && (0 <= d < head_dim
                    ==> values2[h][j * (head_dim) + d] == values[h][kept[j] * (head_dim) + d])
            },
            (
                LayerContents::BF16 { keys, values },
                LayerContents::BF16 { keys: keys2, values: values2 },
            ) => {
                &&& keys2.len() == keys.len()
                &&& h < keys.len() ==> keys2[h].len() == kept.len() * (head_dim) && (0 <= d < head_dim
                    ==> keys2[h][j * (head_dim) + d] == keys[h][kept[j] * (head_dim) + d])
                &&& values2.len() == values.len()
                &&& h < values.len() ==> values2[h].len() == kept.len() * (head_dim) && (0 <= d < head_dim
                    ==> values2[h][j * (head_dim) + d] == values[h][kept[j] * (head_dim) + d])
            },
            (
                LayerContents::INT8 { keys, values, key_scales, value_scales },
                LayerContents::INT8 { keys: keys2, values: values2, key_scales: key_scales2, value_scales: value_scales2 },
            ) => {
                &&& keys2.len() == keys.len()
                &&& h < keys.len() ==> keys2[h].len() == kept.len() * (head_dim) && (0 <= d < head_dim
                    ==> keys2[h][j * (head_dim) + d] == keys[h][kept[j] * (head_dim) + d])
                &&& values2.len() == values.len()
                &&& h < values.len() ==> values2[h].len() == kept.len() * (head_dim) && (0 <= d < head_dim
                    ==> values2[h][j * (head_dim) + d] == values[h][kept[j] * (head_dim) + d])
                &&& key_scales2.len() == key_scales.len()
                &&& h < key_scales.len() ==> key_scales2[h].len() == kept.len() * (1) && (0 <= d < 1
                    ==> key_scales2[h][j * (1) + d] == key_scales[h][kept[j] * (1) + d])
                &&& value_scales2.len() == value_scales.len()
                &&& h < value_scales.len() ==> value_scales2[h].len() == kept.len() * (1) && (0 <= d < 1
                    ==> value_scales2[h][j * (1) + d] == value_scales[h][kept[j] * (1) + d])
            },
            (
                LayerContents::INT4 { keys, values, key_scales, value_scales },
                LayerContents::INT4 { keys: keys2, values: values2, key_scales: key_scales2, value_scales: value_scales2 },
            ) => {
                &&& keys2.len() == keys.len()
                &&& h < keys.len() ==> keys2[h].len() == kept.len() * (head_dim / 2) && (0 <= d < head_dim / 2
                    ==> keys2[h][j * (head_dim / 2) + d] == keys[h][kept[j] * (head_dim / 2) + d])
                &&& values2.len() == values.len()
                &&& h < values.len() ==> values2[h].len() == kept.len() * (head_dim / 2) && (0 <= d < head_dim / 2
                    ==> values2[h][j * (head_dim / 2) + d] == values[h][kept[j] * (head_dim / 2) + d])
                &&& key_scales2.len() == key_scales.len()
                &&& h < key_scales.len() ==> key_scales2[h].len() == kept.len() * (head_dim / 32) && (0 <= d < head_dim / 32
                    ==> key_scales2[h][j * (head_dim / 32) + d] == key_scales[h][kept[j] * (head_dim / 32) + d])
                &&& value_scales2.len() == value_scales.len()
                &&& h < value_scales.len() ==> value_scales2[h].len() == kept.len() * (head_dim / 32) && (0 <= d < head_dim / 32
                    ==> value_scales2[h][j * (head_dim / 32) + d] == value_scales[h][kept[j] * (head_dim / 32) + d])
            },
            _ => false,
        },
{
    match layer {
        LayerContents::F32 { keys, values } => {
            lemma_part_kept(keys, kept, head_dim, h, j, d);
            lemma_part_kept(values, kept, head_dim, h, j, d);
        },
        LayerContents::BF16 { keys, values } => {
            lemma_part_kept(keys, kept, head_dim, h, j, d);
            lemma_part_kept(values, kept, head_dim, h, j, d);
        },
        LayerContents::INT8 { keys, values, key_scales, value_scales } => {
            lemma_part_kept(keys, kept, head_dim, h, j, d);
            lemma_part_kept(values, kept, head_dim, h, j, d);
            lemma_part_kept(key_scales, kept, 1, h, j, d);
            lemma_part_kept(value_scales, kept, 1, h, j, d);
        },
        LayerContents::INT4 { keys, values, key_scales, value_scales } => {
            lemma_part_kept(keys, kept, head_dim / 2, h, j, d);
            lemma_part_kept(values, kept, head_dim / 2, h, j, d);
            lemma_part_kept(key_scales, kept, head_dim / 32, h, j, d);
            lemma_part_kept(value_scales, kept, head_dim / 32, h, j, d);
        },
    }
}

/// Compacting does the same in every layer. The flat arrays are compacted with them in
/// the sixteen-bit format, and stay in the others.
pub proof fn law_compacting_reaches_every_layer<F>(
    store: KvContents<F>,
    kept: Seq<u32>,
    head_dim: int,
    i: int,
    j: int,
    d: int,
)
    requires
        store.wf(),
        0 <= i < store.layers.len(),
        0 <= j < kept.len(),
        0 <= d < store.kv_dim,
    ensures
        store_kept(store, kept, head_dim).layers.len() == store.layers.len(),
        store_kept(store, kept, head_dim).layers[i] == layer_kept(store.layers[i], kept, head_dim),
        !(store.kv_quant is BF16) ==> store_kept(store, kept, head_dim).keys == store.keys
            && store_kept(store, kept, head_dim).values == store.values,
        store.kv_quant is BF16 ==> {
            let after = store_kept(store, kept, head_dim);
            let width = store.kv_dim as int;
            &&& after.keys[i].len() == kept.len() * width
            &&& after.values[i].len() == kept.len() * width
            &&& after.keys[i][j * width + d] == store.keys[i][kept[j] * width + d]
            &&& after.values[i][j * width + d] == store.values[i][kept[j] * width + d]
        },
        store_kept(store, kept, head_dim).num_kv_heads == store.num_kv_heads,
        store_kept(store, kept, head_dim).head_dim == store.head_dim,
        store_kept(store, kept, head_dim).kv_dim == store.kv_dim,
        store_kept(store, kept, head_dim).kv_quant == store.kv_quant,
{
    lemma_part_kept(store.keys, kept, store.kv_dim as int, i, j, d);
    lemma_part_kept(store.values, kept, store.kv_dim as int, i, j, d);
}

} // verus!
