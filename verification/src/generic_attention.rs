//! The bookkeeping of attention: separating queries from their gates, dividing a
//! prefill into units of work, choosing the kernel that runs them, and sizing the score
//! buffers.

use vstd::prelude::*;

use crate::arith::min_of;
use crate::attention_common::{decode_head_parallel_workers, should_parallelize_decode_heads};
use crate::kv_cache::{
    law_append_adds_positions, law_appended_rows_read_back, law_cut_undoes_append, KvContents,
    KvQuantType, KvRows, LayerContents,
};

verus! {

// ---------------------------------------------------------------------------
// Queries and gates
// ---------------------------------------------------------------------------

/// The queries of a fused projection, which holds for every head of every token first
/// the head's query and then its gate.
pub open spec fn query_part<F>(fused: Seq<F>, rows: int, head_dim: int) -> Seq<F> {
    Seq::new(
        (rows * head_dim) as nat,
        |i: int| fused[(i / head_dim) * (2 * head_dim) + i % head_dim],
    )
}

/// The gates of a fused projection.
pub open spec fn gate_part<F>(fused: Seq<F>, rows: int, head_dim: int) -> Seq<F> {
    Seq::new(
        (rows * head_dim) as nat,
        |i: int| fused[(i / head_dim) * (2 * head_dim) + head_dim + i % head_dim],
    )
}

/// Separates the queries and the gates of a fused projection. The queries stay in the
/// buffer, moved together; the gates are returned. `rows` is the number of heads of all
/// tokens together.
pub fn split_query_gate<F: Copy>(fused: &mut Vec<F>, rows: usize, head_dim: usize) -> (gate: Vec<F>)
    requires
        rows * (2 * head_dim) <= old(fused)@.len(),
    ensures
        final(fused)@ == query_part(old(fused)@, rows as int, head_dim as int),
        gate@ == gate_part(old(fused)@, rows as int, head_dim as int),
{
    let ghost before = fused@;
    let len: usize = fused.len();
    let mut gate: Vec<F> = Vec::new();
    if rows == 0 || head_dim == 0 {
        fused.truncate(0);
        proof {
            assert(rows * head_dim == 0) by (nonlinear_arith)
                requires
                    rows == 0 || head_dim == 0,
            ;
            assert(fused@ =~= query_part(before, rows as int, head_dim as int));
            assert(gate@ =~= gate_part(before, rows as int, head_dim as int));
        }
        return gate;
    }
    let mut r: usize = 0;
    proof {
        assert(0 * head_dim == 0 && 0 * (2 * head_dim) == 0) by (nonlinear_arith);
        assert(rows * head_dim <= rows * (2 * head_dim)) by (nonlinear_arith)
            requires
                head_dim >= 0,
                rows >= 0,
        ;
    }
    while r < rows
        invariant
            r <= rows,
            head_dim > 0,
            rows * (2 * head_dim) <= len,
            rows * head_dim <= rows * (2 * head_dim),
            fused@.len() == before.len() == len,
            gate@.len() == r * head_dim,
            forall|i: int|
                0 <= i < r * head_dim ==> #[trigger] fused@[i] == before[(i / head_dim as int) * (2
                    * head_dim) + i % head_dim as int],
            forall|i: int| r * head_dim <= i < len ==> #[trigger] fused@[i] == before[i],
            forall|i: int|
                0 <= i < r * head_dim ==> #[trigger] gate@[i] == before[(i / head_dim as int) * (2
                    * head_dim) + head_dim + i % head_dim as int],
        decreases rows - r,
    {
        proof {
            assert(r * (2 * head_dim) + 2 * head_dim <= rows * (2 * head_dim) && 0 <= r * head_dim
                <= r * (2 * head_dim)) by (nonlinear_arith)
                requires
                    0 <= r < rows,
                    head_dim >= 0,
            ;
            assert((r + 1) * head_dim == r * head_dim + head_dim) by (nonlinear_arith);
            assert(r * (2 * head_dim) == 2 * (r * head_dim)) by (nonlinear_arith);
        }
        let dst: usize = r * head_dim;
        let src: usize = 2 * dst;
        let ghost moved = fused@;
        let mut d: usize = 0;
        while d < head_dim
            invariant
                d <= head_dim,
                dst <= src,
                src + 2 * head_dim <= len,
                fused@.len() == moved.len() == len,
                gate@.len() == dst + d,
                forall|i: int| 0 <= i < dst ==> #[trigger] fused@[i] == moved[i],
                forall|i: int| dst <= i < dst + d ==> #[trigger] fused@[i] == moved[src + (i - dst)],
                forall|i: int| dst + d <= i < len ==> #[trigger] fused@[i] == moved[i],
                forall|i: int|
                    dst <= i < dst + d ==> #[trigger] gate@[i] == moved[src + head_dim + (i - dst)],
                forall|i: int|
                    0 <= i < dst ==> #[trigger] gate@[i] == before[(i / head_dim as int) * (2
                        * head_dim) + head_dim + i % head_dim as int],
            decreases head_dim - d,
        {
            gate.push(fused[src + head_dim + d]);
            let x = fused[src + d];
            fused.set(dst + d, x);
            d = d + 1;
        }
        proof {
            assert forall|i: int| 0 <= i < (r + 1) * head_dim implies #[trigger] fused@[i] == before[(
            i / head_dim as int) * (2 * head_dim) + i % head_dim as int] by {
                if i >= dst {
                    vstd::arithmetic::div_mod::lemma_fundamental_div_mod_converse(
                        i,
                        head_dim as int,
                        r as int,
                        i - dst,
                    );
                    assert(fused@[i] == moved[src + (i - dst)]);
                    assert(moved[src + (i - dst)] == before[src + (i - dst)]);
                } else {
                    assert(fused@[i] == moved[i]);
                }
            }
            assert forall|i: int| 0 <= i < (r + 1) * head_dim implies #[trigger] gate@[i] == before[(i
                / head_dim as int) * (2 * head_dim) + head_dim + i % head_dim as int] by {
                if i >= dst {
                    vstd::arithmetic::div_mod::lemma_fundamental_div_mod_converse(
                        i,
                        head_dim as int,
                        r as int,
                        i - dst,
                    );
                    assert(gate@[i] == moved[src + head_dim + (i - dst)]);
                    assert(moved[src + head_dim + (i - dst)] == before[src + head_dim + (i
                        - dst)]);
                }
            }
        }
        r = r + 1;
    }
    fused.truncate(rows * head_dim);
    proof {
        assert(fused@ =~= query_part(before, rows as int, head_dim as int));
        assert(gate@ =~= gate_part(before, rows as int, head_dim as int));
    }
    gate
}

/// Separating loses nothing: element `d` of head `r` in the fused projection is found
/// again in the queries or in the gates.
pub proof fn law_split_keeps_every_element<F>(
    fused: Seq<F>,
    rows: int,
    head_dim: int,
    r: int,
    d: int,
)
    requires
        head_dim > 0,
        0 <= r < rows,
        0 <= d < head_dim,
    ensures
        query_part(fused, rows, head_dim)[r * head_dim + d] == fused[r * (2 * head_dim) + d],
        gate_part(fused, rows, head_dim)[r * head_dim + d] == fused[r * (2 * head_dim) + head_dim
            + d],
{
    vstd::arithmetic::div_mod::lemma_fundamental_div_mod_converse(
        r * head_dim + d,
        head_dim,
        r,
        d,
    );
    assert(0 <= r * head_dim + d < rows * head_dim) by (nonlinear_arith)
        requires
            0 <= r < rows,
            0 <= d < head_dim,
    ;
}

/// Queries and gates share the projection evenly: each has `head_dim` elements for every
/// head.
pub proof fn law_split_is_even<F>(fused: Seq<F>, rows: int, head_dim: int)
    requires
        rows >= 0,
        head_dim >= 0,
    ensures
        query_part(fused, rows, head_dim).len() == rows * head_dim,
        gate_part(fused, rows, head_dim).len() == rows * head_dim,
{
    assert(rows * head_dim >= 0) by (nonlinear_arith)
        requires
            rows >= 0,
            head_dim >= 0,
    ;
}

// ---------------------------------------------------------------------------
// Units of work
// ---------------------------------------------------------------------------

/// One unit of a prefill: one query position of one key head.
#[derive(Clone, Copy, Debug, PartialEq, Eq, Structural)]
pub struct WorkItem {
    /// The key head.
    pub kv_head: usize,
    /// The query's place among the new tokens.
    pub query: usize,
    /// How many cached positions the query looks at.
    pub valid_len: usize,
}

/// The query that stands at place `local`: from both ends in turn, so that cheap early
/// positions pair with expensive late ones.
pub open spec fn folded(local: int, seq_len: int) -> int {
    if local % 2 == 0 {
        local / 2
    } else {
        seq_len - 1 - local / 2
    }
}

/// The place at which a query stands.
pub open spec fn unfolded(query: int, seq_len: int) -> int {
    if 2 * query < seq_len {
        2 * query
    } else {
        2 * (seq_len - 1 - query) + 1
    }
}

/// How many of the cached positions a query looks at: all of them where attention looks
/// both ways, else those up to its own.
pub open spec fn visible(query_pos: int, cached_len: int, bidirectional: bool) -> int {
    if bidirectional {
        cached_len
    } else {
        min_of(query_pos + 1, cached_len)
    }
}

/// The unit of work with a number, of `seq_len` for each key head.
pub fn prefill_work_item(
    work_idx: usize,
    seq_len: usize,
    start_pos: usize,
    cached_len: usize,
    bidirectional: bool,
) -> (item: WorkItem)
    requires
        seq_len > 0,
        start_pos + seq_len <= usize::MAX,
    ensures
        item.kv_head == work_idx as int / seq_len as int,
        item.query == folded(work_idx as int % seq_len as int, seq_len as int),
        item.query < seq_len,
        item.valid_len == visible(start_pos + item.query, cached_len as int, bidirectional),
        bidirectional || start_pos + item.query >= cached_len ==> item.valid_len == cached_len,
        !bidirectional && start_pos + item.query < cached_len ==> item.valid_len == start_pos
            + item.query + 1,
{
    let kv_head: usize = work_idx / seq_len;
    let local: usize = work_idx % seq_len;
    let query: usize = if local % 2 == 0 {
        local / 2
    } else {
        seq_len - 1 - local / 2
    };
    let end: usize = start_pos + query + 1;
    let valid_len: usize = if bidirectional || end > cached_len {
        cached_len
    } else {
        end
    };
    WorkItem { kv_head, query, valid_len }
}

/// Folding visits every query once: each place has its own query and each query its
/// own place.
pub proof fn law_fold_is_one_to_one(seq_len: int, local: int, query: int)
    requires
        0 <= local < seq_len,
        0 <= query < seq_len,
    ensures
        0 <= folded(local, seq_len) < seq_len,
        0 <= unfolded(query, seq_len) < seq_len,
        unfolded(folded(local, seq_len), seq_len) == local,
        folded(unfolded(query, seq_len), seq_len) == query,
{
}

/// The units of a prefill cover every query of every key head once.
pub proof fn law_work_covers_every_query_once(
    seq_len: int,
    kv_heads: int,
    kv_head: int,
    query: int,
)
    requires
        0 <= kv_head < kv_heads,
        0 <= query < seq_len,
    ensures
        ({
            let w = kv_head * seq_len + unfolded(query, seq_len);
            &&& 0 <= w < kv_heads * seq_len
            &&& w / seq_len == kv_head
            &&& folded(w % seq_len, seq_len) == query
            &&& forall|v: int|
                0 <= v < kv_heads * seq_len && #[trigger] (v / seq_len) == kv_head && folded(
                    v % seq_len,
                    seq_len,
                ) == query ==> v == w
        }),
{
    law_fold_is_one_to_one(seq_len, query, query);
    let place = unfolded(query, seq_len);
    let w = kv_head * seq_len + place;
    vstd::arithmetic::div_mod::lemma_fundamental_div_mod_converse(w, seq_len, kv_head, place);
    assert(0 <= w < kv_heads * seq_len) by (nonlinear_arith)
        requires
            w == kv_head * seq_len + place,
            0 <= kv_head < kv_heads,
            0 <= place < seq_len,
    ;
    assert forall|v: int|
        0 <= v < kv_heads * seq_len && #[trigger] (v / seq_len) == kv_head && folded(
            v % seq_len,
            seq_len,
        ) == query implies v == w by {
        vstd::arithmetic::div_mod::lemma_fundamental_div_mod(v, seq_len);
        law_fold_is_one_to_one(seq_len, v % seq_len, query);
        assert(v == seq_len * kv_head + place);
        assert(seq_len * kv_head == kv_head * seq_len) by (nonlinear_arith);
    }
}

/// Where the output of one head of one query starts.
pub open spec fn head_offset(query: int, head: int, num_heads: int, head_dim: int) -> int {
    query * (num_heads * head_dim) + head * head_dim
}

/// Where the output of one head of one query starts, which is also where its query
/// starts.
pub fn head_start(query: usize, head: usize, num_heads: usize, head_dim: usize) -> (start: usize)
    requires
        head < num_heads,
        (query + 1) * (num_heads * head_dim) <= usize::MAX,
    ensures
        start == head_offset(query as int, head as int, num_heads as int, head_dim as int),
{
    proof {
        let row = num_heads * head_dim;
        assert(row >= 0 && 0 <= head * head_dim <= row) by (nonlinear_arith)
            requires
                row == num_heads * head_dim,
                0 <= head < num_heads,
                head_dim >= 0,
        ;
        assert((query + 1) * row == query * row + row && 0 <= query * row) by (nonlinear_arith)
            requires
                row >= 0,
                query >= 0,
        ;
    }
    query * (num_heads * head_dim) + head * head_dim
}

/// The outputs of two different heads, or of two different queries, never overlap, and
/// all lie within the output of the prefill.
pub proof fn law_outputs_are_disjoint(
    q1: int,
    h1: int,
    q2: int,
    h2: int,
    seq_len: int,
    num_heads: int,
    head_dim: int,
)
    requires
        0 <= q1 < seq_len,
        0 <= q2 < seq_len,
        0 <= h1 < num_heads,
        0 <= h2 < num_heads,
        head_dim > 0,
        (q1, h1) != (q2, h2),
    ensures
        0 <= head_offset(q1, h1, num_heads, head_dim),
        head_offset(q1, h1, num_heads, head_dim) + head_dim <= seq_len * (num_heads * head_dim),
        head_offset(q1, h1, num_heads, head_dim) + head_dim <= head_offset(
            q2,
            h2,
            num_heads,
            head_dim,
        ) || head_offset(q2, h2, num_heads, head_dim) + head_dim <= head_offset(
            q1,
            h1,
            num_heads,
            head_dim,
        ),
{
    let row = num_heads * head_dim;
    lemma_offset_in_row(h1, num_heads, head_dim);
    lemma_offset_in_row(h2, num_heads, head_dim);
    assert(q1 * row + row <= seq_len * row && 0 <= q1 * row) by (nonlinear_arith)
        requires
            0 <= q1 < seq_len,
            row >= 0,
    ;
    if q1 < q2 {
        assert(q1 * row + row <= q2 * row) by (nonlinear_arith)
            requires
                q1 + 1 <= q2,
                row >= 0,
        ;
    } else if q2 < q1 {
        assert(q2 * row + row <= q1 * row) by (nonlinear_arith)
            requires
                q2 + 1 <= q1,
                row >= 0,
        ;
    } else if h1 < h2 {
        assert(h1 * head_dim + head_dim <= h2 * head_dim) by (nonlinear_arith)
            requires
                h1 + 1 <= h2,
                head_dim > 0,
        ;
    } else {
        assert(h2 * head_dim + head_dim <= h1 * head_dim) by (nonlinear_arith)
            requires
                h2 + 1 <= h1,
                head_dim > 0,
        ;
    }
}

proof fn lemma_offset_in_row(h: int, num_heads: int, head_dim: int)
    requires
        0 <= h < num_heads,
        head_dim > 0,
    ensures
        0 <= h * head_dim,
        h * head_dim + head_dim <= num_heads * head_dim,
        num_heads * head_dim >= 0,
{
    assert(0 <= h * head_dim && h * head_dim + head_dim <= num_heads * head_dim)
        by (nonlinear_arith)
        requires
            0 <= h < num_heads,
            head_dim > 0,
    ;
}

/// A query never looks past its own position unless attention looks both ways.
pub proof fn law_attention_is_causal(query_pos: int, cached_len: int)
    requires
        query_pos >= 0,
        cached_len >= 0,
    ensures
        visible(query_pos, cached_len, false) <= query_pos + 1,
        visible(query_pos, cached_len, false) <= cached_len,
        visible(query_pos, cached_len, true) == cached_len,
{
}

/// A query looks at a cached position if and only if the position is not behind its own,
/// or attention looks both ways. So it looks at all positions up to its own, at its own
/// too where that is cached, and at nothing else.
pub proof fn law_queries_see_exactly_the_past(
    query_pos: int,
    cached_len: int,
    bidirectional: bool,
    j: int,
)
    requires
        query_pos >= 0,
        0 <= j < cached_len,
    ensures
        j < visible(query_pos, cached_len, bidirectional) <==> bidirectional || j <= query_pos,
        0 < visible(query_pos, cached_len, bidirectional) <= cached_len,
        !bidirectional && query_pos < cached_len ==> visible(query_pos, cached_len, bidirectional)
            == query_pos + 1,
        visible(query_pos, 0, bidirectional) == 0,
{
}

/// Two neighbouring places hold a query from the front and its counterpart from the
/// back; the first place holds the first query.
pub proof fn law_fold_pairs_the_ends(seq_len: int, k: int)
    requires
        0 <= 2 * k < seq_len,
    ensures
        folded(2 * k, seq_len) == k,
        2 * k + 1 < seq_len ==> folded(2 * k + 1, seq_len) == seq_len - 1 - k,
{
}

/// The outputs lie head behind head and query behind query, without a gap, from the
/// start.
pub proof fn law_outputs_follow_each_other(query: int, head: int, num_heads: int, head_dim: int)
    ensures
        head_offset(0, 0, num_heads, head_dim) == 0,
        head_offset(query, head + 1, num_heads, head_dim) == head_offset(
            query,
            head,
            num_heads,
            head_dim,
        ) + head_dim,
        head_offset(query + 1, 0, num_heads, head_dim) == head_offset(
            query,
            num_heads,
            num_heads,
            head_dim,
        ),
{
    let row = num_heads * head_dim;
    assert((query + 1) * row == query * row + row && 0 * row == 0) by (nonlinear_arith);
    assert((head + 1) * head_dim == head * head_dim + head_dim && 0 * head_dim == 0)
        by (nonlinear_arith);
}

// ---------------------------------------------------------------------------
// Attention kernels
// ---------------------------------------------------------------------------

/// How many queries of one token can share a key head.
pub const MAX_HEADS_PER_KV: usize = 8;

/// How a query is multiplied with a key.
#[derive(Clone, Copy, Debug, PartialEq, Eq, Structural)]
pub enum DotKernel {
    /// On sixteen-bit copies of the queries.
    Narrow,
    Avx512,
    Avx2,
    Scalar,
}

/// How a value is added to an output.
#[derive(Clone, Copy, Debug, PartialEq, Eq, Structural)]
pub enum BlendKernel {
    Avx512,
    Avx2,
    Scalar,
}

/// How one unit of a prefill walks over the positions it looks at.
#[derive(Clone, Copy, Debug, PartialEq, Eq, Structural)]
pub enum PrefillKernel {
    /// All scores first, then their softmax, then all values. The weights are
    /// normalised before the values are added.
    TwoPass { narrow: bool },
    /// Eight heads at once, position by position.
    Fused { narrow: bool },
    /// Head by head, position by position.
    Split { dot: DotKernel, blend: BlendKernel },
}

/// What the machine offers, and what was asked for when the library was built.
#[derive(Clone, Copy, Debug, PartialEq, Eq, Structural)]
pub struct KernelChoice {
    pub avx512f: bool,
    pub avx512bf16: bool,
    pub avx2_fma: bool,
    pub two_pass: bool,
}

impl KernelChoice {
    /// The kernel for keys and values that vector instructions can read.
    pub open spec fn vector_kernel(self, heads_per_kv: int, narrow: bool) -> PrefillKernel {
        if heads_per_kv == 8 {
            if self.two_pass && self.avx512f {
                PrefillKernel::TwoPass { narrow }
            } else if narrow || self.avx512f {
                PrefillKernel::Fused { narrow }
            } else {
                PrefillKernel::Split { dot: DotKernel::Scalar, blend: BlendKernel::Scalar }
            }
        } else {
            PrefillKernel::Split {
                dot: if narrow {
                    DotKernel::Narrow
                } else if self.avx512f {
                    DotKernel::Avx512
                } else if self.avx2_fma {
                    DotKernel::Avx2
                } else {
                    DotKernel::Scalar
                },
                blend: if self.avx512f {
                    BlendKernel::Avx512
                } else if self.avx2_fma {
                    BlendKernel::Avx2
                } else {
                    BlendKernel::Scalar
                },
            }
        }
    }

    /// The kernel for a format of keys and values.
    pub open spec fn spec_prefill_kernel(
        self,
        quant: KvQuantType,
        heads_per_kv: int,
        has_narrow_queries: bool,
    ) -> PrefillKernel {
        match quant {
            KvQuantType::BF16 => self.vector_kernel(
                heads_per_kv,
                has_narrow_queries && self.avx512bf16,
            ),
            KvQuantType::INT8 => self.vector_kernel(heads_per_kv, false),
            _ => PrefillKernel::Split { dot: DotKernel::Scalar, blend: BlendKernel::Scalar },
        }
    }

    fn pick_vector_kernel(&self, heads_per_kv: usize, narrow: bool) -> (kernel: PrefillKernel)
        ensures
            kernel == self.vector_kernel(heads_per_kv as int, narrow),
    {
        if heads_per_kv == 8 {
            if self.two_pass && self.avx512f {
                PrefillKernel::TwoPass { narrow }
            } else if narrow || self.avx512f {
                PrefillKernel::Fused { narrow }
            } else {
                PrefillKernel::Split { dot: DotKernel::Scalar, blend: BlendKernel::Scalar }
            }
        } else {
            let dot = if narrow {
                DotKernel::Narrow
            } else if self.avx512f {
                DotKernel::Avx512
            } else if self.avx2_fma {
                DotKernel::Avx2
            } else {
                DotKernel::Scalar
            };
            let blend = if self.avx512f {
                BlendKernel::Avx512
            } else if self.avx2_fma {
                BlendKernel::Avx2
            } else {
                BlendKernel::Scalar
            };
            PrefillKernel::Split { dot, blend }
        }
    }

    /// The kernel for sixteen-bit keys and values.
    pub fn prefill_kernel_bf16(&self, heads_per_kv: usize, has_narrow_queries: bool) -> (kernel:
        PrefillKernel)
        ensures
            kernel == self.spec_prefill_kernel(
                KvQuantType::BF16,
                heads_per_kv as int,
                has_narrow_queries,
            ),
    {
        self.pick_vector_kernel(heads_per_kv, has_narrow_queries && self.avx512bf16)
    }

    /// The kernel for eight-bit keys and values.
    pub fn prefill_kernel_int8(&self, heads_per_kv: usize) -> (kernel: PrefillKernel)
        ensures
            forall|narrow: bool|
                kernel == #[trigger] self.spec_prefill_kernel(
                    KvQuantType::INT8,
                    heads_per_kv as int,
                    narrow,
                ),
    {
        self.pick_vector_kernel(heads_per_kv, false)
    }

    /// The kernel for a format of keys and values.
    pub fn prefill_kernel(
        &self,
        quant: KvQuantType,
        heads_per_kv: usize,
        has_narrow_queries: bool,
    ) -> (kernel: PrefillKernel)
        ensures
            kernel == self.spec_prefill_kernel(quant, heads_per_kv as int, has_narrow_queries),
    {
        match quant {
            KvQuantType::BF16 => self.prefill_kernel_bf16(heads_per_kv, has_narrow_queries),
            KvQuantType::INT8 => self.prefill_kernel_int8(heads_per_kv),
            _ => PrefillKernel::Split { dot: DotKernel::Scalar, blend: BlendKernel::Scalar },
        }
    }
}

/// A machine without vector instructions runs every format with the scalar kernel, and
/// every other kernel needs an instruction that the machine has.
pub proof fn law_kernels_fit_the_machine(
    choice: KernelChoice,
    quant: KvQuantType,
    heads_per_kv: int,
    has_narrow_queries: bool,
)
    ensures
        match choice.spec_prefill_kernel(quant, heads_per_kv, has_narrow_queries) {
            PrefillKernel::TwoPass { narrow } => {
                &&& heads_per_kv == 8 && choice.avx512f && choice.two_pass
                &&& narrow ==> choice.avx512bf16
            },
            PrefillKernel::Fused { narrow } => {
                &&& heads_per_kv == 8
                &&& narrow ==> choice.avx512bf16
                &&& !narrow ==> choice.avx512f
            },
            PrefillKernel::Split { dot, blend } => {
                &&& dot is Narrow ==> choice.avx512bf16
                &&& dot is Avx512 ==> choice.avx512f
                &&& dot is Avx2 ==> choice.avx2_fma
                &&& blend is Avx512 ==> choice.avx512f
                &&& blend is Avx2 ==> choice.avx2_fma
            },
        },
{
}

/// Every kernel is used where the machine and the block allow it, and no slower one in
/// its place: two passes for eight heads where they were asked for, fused heads for
/// eight heads else, and on sixteen-bit queries wherever there are such and the machine
/// multiplies them.
pub proof fn law_the_best_kernel_is_used(
    choice: KernelChoice,
    quant: KvQuantType,
    heads_per_kv: int,
    has_narrow_queries: bool,
)
    ensures
        ({
            let kernel = choice.spec_prefill_kernel(quant, heads_per_kv, has_narrow_queries);
            let vector = quant is BF16 || quant is INT8;
            let halves = quant is BF16 && has_narrow_queries && choice.avx512bf16;
            &&& !vector ==> kernel == (PrefillKernel::Split {
                dot: DotKernel::Scalar,
                blend: BlendKernel::Scalar,
            })
            &&& kernel is TwoPass <==> vector && heads_per_kv == 8 && choice.two_pass
                && choice.avx512f
            &&& kernel is Fused <==> vector && heads_per_kv == 8 && (halves || choice.avx512f) && !(
            choice.two_pass && choice.avx512f)
            &&& kernel matches PrefillKernel::TwoPass { narrow } ==> narrow == halves
            &&& kernel matches PrefillKernel::Fused { narrow } ==> narrow == halves
            &&& kernel matches PrefillKernel::Split { dot, blend } ==> {
                let each = vector && heads_per_kv != 8;
                &&& dot is Narrow <==> each && halves
                &&& dot is Avx512 <==> each && !halves && choice.avx512f
                &&& dot is Avx2 <==> each && !halves && !choice.avx512f && choice.avx2_fma
                &&& blend is Avx512 <==> each && choice.avx512f
                &&& blend is Avx2 <==> each && !choice.avx512f && choice.avx2_fma
            }
        }),
{
}

/// Where one position lies in the stretch of a head: its codes, and its scales.
#[derive(Clone, Copy, Debug, PartialEq, Eq, Structural)]
pub struct RowPlace {
    pub start: usize,
    pub len: usize,
    pub scale_start: usize,
    pub scales: usize,
}

/// How many elements a position takes in the stretch of a head.
pub open spec fn row_width(quant: KvQuantType, head_dim: int) -> int {
    match quant {
        KvQuantType::INT4 => head_dim / 2,
        _ => head_dim,
    }
}

/// How many scales a position has in the stretch of a head.
pub open spec fn row_scales(quant: KvQuantType, head_dim: int) -> int {
    match quant {
        KvQuantType::INT8 => 1,
        KvQuantType::INT4 => head_dim / 32,
        _ => 0,
    }
}

/// Where a position lies in the stretch of a head.
pub fn row_place(quant: KvQuantType, position: usize, head_dim: usize) -> (place: RowPlace)
    requires
        (position + 1) * head_dim <= usize::MAX,
    ensures
        place.start == position * row_width(quant, head_dim as int),
        place.len == row_width(quant, head_dim as int),
        place.scale_start == position * row_scales(quant, head_dim as int),
        place.scales == row_scales(quant, head_dim as int),
{
    let len: usize = match quant {
        KvQuantType::INT4 => head_dim / 2,
        _ => head_dim,
    };
    let scales: usize = match quant {
        KvQuantType::INT8 => 1,
        KvQuantType::INT4 => head_dim / 32,
        _ => 0,
    };
    proof {
        assert(position * len <= position * head_dim && position * head_dim <= (position + 1)
            * head_dim) by (nonlinear_arith)
            requires
                len <= head_dim,
                position >= 0,
                head_dim >= 0,
        ;
        assert(position * scales <= position * head_dim || scales <= 1) by (nonlinear_arith)
            requires
                scales <= head_dim || scales <= 1,
                position >= 0,
        ;
        assert(position * scales <= usize::MAX) by (nonlinear_arith)
            requires
                position * scales <= position * head_dim || scales <= 1,
                position * head_dim <= usize::MAX,
                0 <= position <= usize::MAX,
                scales >= 0,
        ;
    }
    RowPlace { start: position * len, len, scale_start: position * scales, scales }
}

/// The positions of a head follow each other without a gap: where one ends the next one
/// starts, in the codes and in the scales.
pub proof fn law_rows_follow_each_other(quant: KvQuantType, position: int, head_dim: int)
    ensures
        position * row_width(quant, head_dim) + row_width(quant, head_dim) == (position + 1)
            * row_width(quant, head_dim),
        position * row_scales(quant, head_dim) + row_scales(quant, head_dim) == (position + 1)
            * row_scales(quant, head_dim),
{
    let w = row_width(quant, head_dim);
    let s = row_scales(quant, head_dim);
    assert(position * w + w == (position + 1) * w) by (nonlinear_arith);
    assert(position * s + s == (position + 1) * s) by (nonlinear_arith);
}

/// A position takes an element for each element of the head, but half as many bytes in
/// the four-bit format, which has a scale for every 32 elements; the eight-bit format has
/// one scale, and the others have none.
pub proof fn law_rows_have_the_size_of_their_format(head_dim: int)
    requires
        head_dim >= 0,
    ensures
        row_width(KvQuantType::F32, head_dim) == head_dim,
        row_width(KvQuantType::BF16, head_dim) == head_dim,
        row_width(KvQuantType::INT8, head_dim) == head_dim,
        head_dim - 1 <= 2 * row_width(KvQuantType::INT4, head_dim) <= head_dim,
        row_scales(KvQuantType::F32, head_dim) == 0,
        row_scales(KvQuantType::BF16, head_dim) == 0,
        row_scales(KvQuantType::INT8, head_dim) == 1,
        head_dim - 31 <= 32 * row_scales(KvQuantType::INT4, head_dim) <= head_dim,
{
}

/// The place of a position is where its keys were put: of a layer that held `held`
/// positions, the row of position `held + p` holds what row `p` of the appended rows had
/// for the head.
pub proof fn law_places_find_the_positions<'a, F>(
    layer: LayerContents<F>,
    rows: KvRows<'a, F>,
    heads: int,
    head_dim: int,
    held: int,
    p: int,
    h: int,
    d: int,
)
    requires
        held >= 0,
        layer.holds(heads, head_dim, held),
        layer.accepts(rows, heads, head_dim),
        0 <= p < rows.positions(heads, head_dim),
        0 <= h < heads,
        0 <= d < head_dim,
    ensures
        ({
            let at = p * (heads * head_dim) + h * head_dim + d;
            match (rows, layer.appended(rows, heads, head_dim)) {
                (KvRows::F32 { keys: k, values: v }, LayerContents::F32 { keys, values }) => {
                    let place = (held + p) * row_width(KvQuantType::F32, head_dim) + d;
                    keys[h][place] == k@[at] && values[h][place] == v@[at]
                },
                (KvRows::BF16 { keys: k, values: v }, LayerContents::BF16 { keys, values }) => {
                    let place = (held + p) * row_width(KvQuantType::BF16, head_dim) + d;
                    keys[h][place] == k@[at] && values[h][place] == v@[at]
                },
                (
                    KvRows::INT8 { keys: k, values: v, key_scales: ks, value_scales: vs },
                    LayerContents::INT8 { keys, values, key_scales, value_scales },
                ) => {
                    let place = (held + p) * row_width(KvQuantType::INT8, head_dim) + d;
                    let scale = (held + p) * row_scales(KvQuantType::INT8, head_dim);
                    &&& keys[h][place] == k@[at] && values[h][place] == v@[at]
                    &&& key_scales[h][scale] == ks@[p * heads + h]
                    &&& value_scales[h][scale] == vs@[p * heads + h]
                },
                (
                    KvRows::INT4 { keys: k, values: v, .. },
                    LayerContents::INT4 { keys, values, .. },
                ) => d < 32 * (head_dim / 32) ==> {
                    let place = (held + p) * row_width(KvQuantType::INT4, head_dim) + 16 * (d / 32)
                        + d % 16;
                    let key = keys[h][place] as int;
                    let value = values[h][place] as int;
                    &&& d % 32 < 16 ==> key % 16 == k@[at] && value % 16 == v@[at]
                    &&& d % 32 >= 16 ==> key / 16 == k@[at] && value / 16 == v@[at]
                },
                _ => false,
            }
        }),
{
    law_appended_rows_read_back(layer, rows, heads, head_dim, p, h, d);
    assert((held + p) * head_dim == held * head_dim + p * head_dim && (held + p) * 1 == held + p)
        by (nonlinear_arith);
    let half = head_dim / 2;
    assert((held + p) * half == held * half + p * half) by (nonlinear_arith);
    match layer {
        LayerContents::F32 { keys, values } => {
            assert(keys[h].len() == held * head_dim && values[h].len() == held * head_dim);
        },
        LayerContents::BF16 { keys, values } => {
            assert(keys[h].len() == held * head_dim && values[h].len() == held * head_dim);
        },
        LayerContents::INT8 { keys, values, key_scales, value_scales } => {
            assert(keys[h].len() == held * head_dim && values[h].len() == held * head_dim);
            assert(key_scales[h].len() == held && value_scales[h].len() == held);
        },
        LayerContents::INT4 { keys, values, .. } => {
            assert(keys[h].len() == held * half && values[h].len() == held * half);
        },
    }
}

/// Where the queries that a unit attends for start, which is also where their outputs
/// start: all heads that share the unit's key head.
pub fn unit_query_starts(
    item: &WorkItem,
    num_heads: usize,
    num_kv_heads: usize,
    head_dim: usize,
) -> (starts: Vec<usize>)
    requires
        num_kv_heads > 0,
        num_heads as int / num_kv_heads as int <= MAX_HEADS_PER_KV,
        item.kv_head < num_kv_heads,
        (item.query + 1) * (num_heads * head_dim) <= usize::MAX,
    ensures
        starts@.len() == num_heads as int / num_kv_heads as int,
        forall|i: int|
            0 <= i < starts@.len() ==> #[trigger] starts@[i] == head_offset(
                item.query as int,
                item.kv_head * (num_heads as int / num_kv_heads as int) + i,
                num_heads as int,
                head_dim as int,
            ),
{
    let heads_per_kv: usize = num_heads / num_kv_heads;
    let ghost hpk = num_heads as int / num_kv_heads as int;
    proof {
        lemma_group_in_heads(item.kv_head as int, num_heads as int, num_kv_heads as int);
    }
    let first: usize = item.kv_head * heads_per_kv;
    let mut starts: Vec<usize> = Vec::new();
    let mut i: usize = 0;
    while i < heads_per_kv
        invariant
            i <= heads_per_kv,
            heads_per_kv == hpk,
            first == item.kv_head * hpk,
            first + heads_per_kv <= num_heads,
            (item.query + 1) * (num_heads * head_dim) <= usize::MAX,
            starts@.len() == i,
            forall|j: int|
                0 <= j < i ==> #[trigger] starts@[j] == head_offset(
                    item.query as int,
                    item.kv_head * hpk + j,
                    num_heads as int,
                    head_dim as int,
                ),
        decreases heads_per_kv - i,
    {
        starts.push(head_start(item.query, first + i, num_heads, head_dim));
        i = i + 1;
    }
    starts
}

proof fn lemma_group_in_heads(kv_head: int, num_heads: int, num_kv_heads: int)
    requires
        0 <= kv_head < num_kv_heads,
        num_heads >= 0,
    ensures
        0 <= kv_head * (num_heads / num_kv_heads),
        kv_head * (num_heads / num_kv_heads) + num_heads / num_kv_heads <= num_heads,
{
    let hpk = num_heads / num_kv_heads;
    vstd::arithmetic::div_mod::lemma_fundamental_div_mod(num_heads, num_kv_heads);
    assert(0 <= kv_head * hpk && kv_head * hpk + hpk <= num_heads) by (nonlinear_arith)
        requires
            0 <= kv_head < num_kv_heads,
            hpk >= 0,
            num_heads == num_kv_heads * hpk + num_heads % num_kv_heads,
            num_heads % num_kv_heads >= 0,
    ;
}

/// The unit that writes an element of the output of a prefill, and the head for which it
/// does.
pub open spec fn writer_of(
    p: int,
    seq_len: int,
    num_heads: int,
    num_kv_heads: int,
    head_dim: int,
) -> (int, int) {
    let row = num_heads * head_dim;
    let head = (p % row) / head_dim;
    ((head / (num_heads / num_kv_heads)) * seq_len + unfolded(p / row, seq_len), head)
}

/// Every element of the output is written: by a unit of the prefill, for one of the heads
/// that share that unit's key head. With `law_outputs_are_disjoint` and
/// `law_work_covers_every_query_once`, by no other.
pub proof fn law_every_output_is_written(
    p: int,
    seq_len: int,
    num_heads: int,
    num_kv_heads: int,
    head_dim: int,
)
    requires
        0 < num_kv_heads <= num_heads,
        num_heads % num_kv_heads == 0,
        head_dim > 0,
        0 <= p < seq_len * (num_heads * head_dim),
    ensures
        ({
            let hpk = num_heads / num_kv_heads;
            let (w, head) = writer_of(p, seq_len, num_heads, num_kv_heads, head_dim);
            let kv_head = w / seq_len;
            let query = folded(w % seq_len, seq_len);
            &&& 0 <= w < num_kv_heads * seq_len
            &&& 0 <= query < seq_len
            &&& kv_head * hpk <= head < kv_head * hpk + hpk
            &&& head_offset(query, head, num_heads, head_dim) <= p
            &&& p < head_offset(query, head, num_heads, head_dim) + head_dim
        }),
{
    let row = num_heads * head_dim;
    let hpk = num_heads / num_kv_heads;
    let query = p / row;
    let rest = p % row;
    let head = rest / head_dim;
    assert(row > 0) by (nonlinear_arith)
        requires
            row == num_heads * head_dim,
            num_heads > 0,
            head_dim > 0,
    ;
    vstd::arithmetic::div_mod::lemma_fundamental_div_mod(p, row);
    vstd::arithmetic::div_mod::lemma_mod_bound(p, row);
    assert(0 <= query < seq_len) by (nonlinear_arith)
        requires
            p == row * query + rest,
            0 <= rest < row,
            0 <= p < seq_len * row,
    ;
    vstd::arithmetic::div_mod::lemma_fundamental_div_mod(rest, head_dim);
    vstd::arithmetic::div_mod::lemma_mod_bound(rest, head_dim);
    assert(0 <= head < num_heads) by (nonlinear_arith)
        requires
            rest == head_dim * head + rest % head_dim,
            0 <= rest % head_dim < head_dim,
            0 <= rest < num_heads * head_dim,
    ;
    vstd::arithmetic::div_mod::lemma_fundamental_div_mod(num_heads, num_kv_heads);
    assert(hpk > 0) by (nonlinear_arith)
        requires
            num_heads == num_kv_heads * hpk,
            num_heads > 0,
            num_kv_heads > 0,
    ;
    let kv_head = head / hpk;
    vstd::arithmetic::div_mod::lemma_fundamental_div_mod(head, hpk);
    vstd::arithmetic::div_mod::lemma_mod_bound(head, hpk);
    assert(0 <= kv_head < num_kv_heads) by (nonlinear_arith)
        requires
            head == hpk * kv_head + head % hpk,
            0 <= head % hpk < hpk,
            0 <= head < num_kv_heads * hpk,
    ;
    law_work_covers_every_query_once(seq_len, num_kv_heads, kv_head, query);
    assert(kv_head * hpk == hpk * kv_head) by (nonlinear_arith);
    assert(query * row == row * query) by (nonlinear_arith);
    assert(head * head_dim == head_dim * head) by (nonlinear_arith);
}

// ---------------------------------------------------------------------------
// Score buffers
// ---------------------------------------------------------------------------

/// How decoding runs the heads of a layer.
#[derive(Clone, Copy, Debug, PartialEq, Eq, Structural)]
pub enum DecodeHeads {
    /// One after the other.
    InTurn,
    /// Divided among so many workers.
    Divided(usize),
}

/// Decides how decoding runs the heads.
pub fn decode_heads(num_heads: usize, cached_len: usize, pool_workers: usize) -> (plan: DecodeHeads)
    ensures
        plan == (if pool_workers > 1 && num_heads >= 8 && cached_len >= 256 {
            DecodeHeads::Divided(min_of(pool_workers as int, num_heads as int) as usize)
        } else {
            DecodeHeads::InTurn
        }),
{
    if should_parallelize_decode_heads(num_heads, cached_len, pool_workers) {
        DecodeHeads::Divided(decode_head_parallel_workers(pool_workers, num_heads))
    } else {
        DecodeHeads::InTurn
    }
}

/// The first `n` elements, with `zero` behind where there are fewer.
pub open spec fn resized<F>(s: Seq<F>, n: int, zero: F) -> Seq<F> {
    Seq::new(n as nat, |i: int| if i < s.len() { s[i] } else { zero })
}

/// A resized buffer has the length asked for, keeps its elements as far as it reaches,
/// and has zeros behind them.
pub proof fn law_resizing<F>(s: Seq<F>, n: int, zero: F, i: int)
    requires
        0 <= i < n,
    ensures
        resized(s, n, zero).len() == n,
        i < s.len() ==> resized(s, n, zero)[i] == s[i],
        i >= s.len() ==> resized(s, n, zero)[i] == zero,
{
}

/// Gives each of `workers` workers a score buffer for `cached_len` positions. Buffers
/// of further workers are left alone.
pub fn prepare_worker_scores<F: Copy>(
    buffers: &mut Vec<Vec<F>>,
    workers: usize,
    cached_len: usize,
    zero: F,
)
    ensures
        final(buffers)@.len() == (if old(buffers)@.len() >= workers {
            old(buffers)@.len() as int
        } else {
            workers as int
        }),
        forall|w: int|
            0 <= w < workers ==> (#[trigger] final(buffers)@[w])@ == resized(
                if w < old(buffers)@.len() {
                    old(buffers)@[w]@
                } else {
                    Seq::empty()
                },
                cached_len as int,
                zero,
            ),
        forall|w: int|
            workers <= w < old(buffers)@.len() ==> (#[trigger] final(buffers)@[w])@ == old(
                buffers,
            )@[w]@,
{
    let ghost before = buffers@;
    while buffers.len() < workers
        invariant
            before.len() <= buffers@.len(),
            before.len() >= workers ==> buffers@.len() == before.len(),
            before.len() < workers ==> buffers@.len() <= workers,
            forall|w: int| 0 <= w < before.len() ==> (#[trigger] buffers@[w])@ == before[w]@,
            forall|w: int|
                before.len() <= w < buffers@.len() ==> (#[trigger] buffers@[w])@ == Seq::<
                    F,
                >::empty(),
        decreases workers - buffers@.len(),
    {
        buffers.push(Vec::new());
    }
    let ghost grown = buffers@;
    let mut w: usize = 0;
    while w < workers
        invariant
            w <= workers <= buffers@.len(),
            buffers@.len() == grown.len(),
            forall|v: int|
                0 <= v < w ==> (#[trigger] buffers@[v])@ == resized(
                    grown[v]@,
                    cached_len as int,
                    zero,
                ),
            forall|v: int| w <= v < grown.len() ==> (#[trigger] buffers@[v])@ == grown[v]@,
        decreases workers - w,
    {
        resize_scores(&mut buffers[w], cached_len, zero);
        w = w + 1;
    }
}

/// Cuts a buffer to `n` elements, or fills it up with `zero`.
pub fn resize_scores<F: Copy>(buffer: &mut Vec<F>, n: usize, zero: F)
    ensures
        final(buffer)@ == resized(old(buffer)@, n as int, zero),
{
    let ghost before = buffer@;
    if buffer.len() >= n {
        buffer.truncate(n);
    } else {
        while buffer.len() < n
            invariant
                before.len() <= buffer@.len() <= n,
                forall|i: int| 0 <= i < before.len() ==> buffer@[i] == before[i],
                forall|i: int| before.len() <= i < buffer@.len() ==> buffer@[i] == zero,
            decreases n - buffer@.len(),
        {
            buffer.push(zero);
        }
    }
    proof {
        assert(buffer@ =~= resized(before, n as int, zero));
    }
}

// ---------------------------------------------------------------------------
// The steps of attention
// ---------------------------------------------------------------------------

/// One step of an attention block.
#[derive(Clone, Copy, Debug, PartialEq, Eq, Structural)]
pub enum AttentionStep {
    /// Project to queries, keys and values, and to the gates where the block has them.
    Project,
    /// Separate the gates from the queries.
    SplitGate,
    AddQueryBias,
    AddKeyBias,
    AddValueBias,
    /// Normalise each head of the queries.
    NormQueries,
    /// Normalise each head of the keys.
    NormKeys,
    /// Rotate queries and keys by their positions.
    Rotate,
    /// Make a sixteen-bit copy of the queries.
    NarrowQueries,
    /// Append keys and values to the cache.
    Append,
    /// Attend to the cached positions.
    Attend,
    /// Multiply by the gates.
    ApplyGate,
    /// Project back.
    ProjectOut,
    AddOutputBias,
}

/// How an attention block is put together.
#[derive(Clone, Copy, Debug, PartialEq, Eq, Structural)]
pub struct AttentionShape {
    pub has_output_gate: bool,
    pub q_bias: bool,
    pub k_bias: bool,
    pub v_bias: bool,
    pub o_bias: bool,
    pub q_norm: bool,
    pub k_norm: bool,
    /// Whether the block knows positions at all.
    pub use_rope: bool,
    /// Whether queries are wanted in sixteen bits, where the machine can use them.
    pub use_q_bf16: bool,
}

/// A step that may be left out.
pub open spec fn optional(taken: bool, step: AttentionStep) -> Seq<AttentionStep> {
    if taken {
        seq![step]
    } else {
        Seq::empty()
    }
}

impl AttentionShape {
    /// The steps up to the biases.
    pub open spec fn projection_steps(self) -> Seq<AttentionStep> {
        seq![AttentionStep::Project] + optional(self.has_output_gate, AttentionStep::SplitGate)
            + optional(self.q_bias, AttentionStep::AddQueryBias) + optional(
            self.k_bias,
            AttentionStep::AddKeyBias,
        ) + optional(self.v_bias, AttentionStep::AddValueBias)
    }

    /// The steps behind attending.
    pub open spec fn output_steps(self) -> Seq<AttentionStep> {
        optional(self.has_output_gate, AttentionStep::ApplyGate) + seq![AttentionStep::ProjectOut]
            + optional(self.o_bias, AttentionStep::AddOutputBias)
    }

    /// The steps on one token. Queries and keys are each normalised where there is a
    /// norm for them.
    pub open spec fn decode_steps(self, avx512bf16: bool) -> Seq<AttentionStep> {
        self.projection_steps() + optional(self.q_norm, AttentionStep::NormQueries) + optional(
            self.k_norm,
            AttentionStep::NormKeys,
        ) + optional(self.use_rope, AttentionStep::Rotate) + optional(
            self.use_q_bf16 && avx512bf16,
            AttentionStep::NarrowQueries,
        ) + seq![AttentionStep::Append, AttentionStep::Attend] + self.output_steps()
    }

    /// The steps on a run of tokens that need no keys and values of other tokens. Here
    /// queries and keys are normalised only together.
    pub open spec fn phase_a_steps(self) -> Seq<AttentionStep> {
        self.projection_steps() + optional(
            self.q_norm && self.k_norm,
            AttentionStep::NormQueries,
        ) + optional(self.q_norm && self.k_norm, AttentionStep::NormKeys) + optional(
            self.use_rope,
            AttentionStep::Rotate,
        )
    }

    /// The remaining steps on a run of tokens, where the run is divided.
    pub open spec fn phase_b_steps(self, avx512bf16: bool) -> Seq<AttentionStep> {
        seq![AttentionStep::Append] + optional(
            self.use_q_bf16 && avx512bf16,
            AttentionStep::NarrowQueries,
        ) + seq![AttentionStep::Attend] + self.output_steps()
    }

    /// The steps on a run of tokens.
    pub open spec fn prefill_steps(self, avx512bf16: bool) -> Seq<AttentionStep> {
        self.phase_a_steps() + optional(
            self.use_q_bf16 && avx512bf16,
            AttentionStep::NarrowQueries,
        ) + seq![AttentionStep::Append, AttentionStep::Attend] + self.output_steps()
    }

    fn push_if(steps: &mut Vec<AttentionStep>, taken: bool, step: AttentionStep)
        ensures
            final(steps)@ == old(steps)@ + optional(taken, step),
    {
        let ghost before = steps@;
        if taken {
            steps.push(step);
        }
        proof {
            assert(steps@ =~= before + optional(taken, step));
        }
    }

    fn push_projection(&self, steps: &mut Vec<AttentionStep>)
        ensures
            final(steps)@ == old(steps)@ + self.projection_steps(),
    {
        let ghost before = steps@;
        AttentionShape::push_if(steps, true, AttentionStep::Project);
        AttentionShape::push_if(steps, self.has_output_gate, AttentionStep::SplitGate);
        AttentionShape::push_if(steps, self.q_bias, AttentionStep::AddQueryBias);
        AttentionShape::push_if(steps, self.k_bias, AttentionStep::AddKeyBias);
        AttentionShape::push_if(steps, self.v_bias, AttentionStep::AddValueBias);
        proof {
            assert(steps@ =~= before + self.projection_steps());
        }
    }

    fn push_output(&self, steps: &mut Vec<AttentionStep>)
        ensures
            final(steps)@ == old(steps)@ + self.output_steps(),
    {
        let ghost before = steps@;
        AttentionShape::push_if(steps, self.has_output_gate, AttentionStep::ApplyGate);
        AttentionShape::push_if(steps, true, AttentionStep::ProjectOut);
        AttentionShape::push_if(steps, self.o_bias, AttentionStep::AddOutputBias);
        proof {
            assert(steps@ =~= before + self.output_steps());
        }
    }

    /// The steps on one token.
    pub fn forward_decode(&self, avx512bf16: bool) -> (steps: Vec<AttentionStep>)
        ensures
            steps@ == self.decode_steps(avx512bf16),
    {
        let mut steps: Vec<AttentionStep> = Vec::new();
        self.push_projection(&mut steps);
        AttentionShape::push_if(&mut steps, self.q_norm, AttentionStep::NormQueries);
        AttentionShape::push_if(&mut steps, self.k_norm, AttentionStep::NormKeys);
        AttentionShape::push_if(&mut steps, self.use_rope, AttentionStep::Rotate);
        AttentionShape::push_if(
            &mut steps,
            self.use_q_bf16 && avx512bf16,
            AttentionStep::NarrowQueries,
        );
        steps.push(AttentionStep::Append);
        steps.push(AttentionStep::Attend);
        self.push_output(&mut steps);
        proof {
            assert(steps@ =~= self.decode_steps(avx512bf16));
        }
        steps
    }

    /// The steps on a run of tokens that need no keys and values of other tokens.
    pub fn forward_prefill_phase_a(&self) -> (steps: Vec<AttentionStep>)
        ensures
            steps@ == self.phase_a_steps(),
    {
        let mut steps: Vec<AttentionStep> = Vec::new();
        self.push_projection(&mut steps);
        let norms: bool = self.q_norm && self.k_norm;
        AttentionShape::push_if(&mut steps, norms, AttentionStep::NormQueries);
        AttentionShape::push_if(&mut steps, norms, AttentionStep::NormKeys);
        AttentionShape::push_if(&mut steps, self.use_rope, AttentionStep::Rotate);
        proof {
            assert(steps@ =~= self.phase_a_steps());
        }
        steps
    }

    /// The remaining steps on a run of tokens.
    pub fn forward_prefill_phase_b(&self, avx512bf16: bool) -> (steps: Vec<AttentionStep>)
        ensures
            steps@ == self.phase_b_steps(avx512bf16),
    {
        let mut steps: Vec<AttentionStep> = Vec::new();
        steps.push(AttentionStep::Append);
        AttentionShape::push_if(
            &mut steps,
            self.use_q_bf16 && avx512bf16,
            AttentionStep::NarrowQueries,
        );
        steps.push(AttentionStep::Attend);
        self.push_output(&mut steps);
        proof {
            assert(steps@ =~= self.phase_b_steps(avx512bf16));
        }
        steps
    }

    /// The steps on a run of tokens.
    pub fn forward_prefill(&self, avx512bf16: bool) -> (steps: Vec<AttentionStep>)
        ensures
            steps@ == self.prefill_steps(avx512bf16),
    {
        let mut steps: Vec<AttentionStep> = self.forward_prefill_phase_a();
        AttentionShape::push_if(
            &mut steps,
            self.use_q_bf16 && avx512bf16,
            AttentionStep::NarrowQueries,
        );
        steps.push(AttentionStep::Append);
        steps.push(AttentionStep::Attend);
        self.push_output(&mut steps);
        proof {
            assert(steps@ =~= self.prefill_steps(avx512bf16));
        }
        steps
    }
}

/// Running a prefill in two phases does the same as running it in one: the steps are
/// the same, but for the sixteen-bit copy of the queries, which is made behind the
/// appending of keys and values, and not before it.
pub proof fn law_two_phases_make_a_prefill(shape: AttentionShape, avx512bf16: bool)
    ensures
        ({
            let divided = shape.phase_a_steps() + shape.phase_b_steps(avx512bf16);
            let whole = shape.prefill_steps(avx512bf16);
            let at = shape.phase_a_steps().len() as int;
            if shape.use_q_bf16 && avx512bf16 {
                &&& divided[at] is Append && divided[at + 1] is NarrowQueries
                &&& whole == divided.update(at, AttentionStep::NarrowQueries).update(
                    at + 1,
                    AttentionStep::Append,
                )
            } else {
                whole == divided
            }
        }),
{
    lemma_divided_steps(
        shape.phase_a_steps(),
        shape.use_q_bf16 && avx512bf16,
        shape.output_steps(),
    );
}

/// Steps around an append and an optional copy of the queries, with the copy on either
/// side of the append.
proof fn lemma_divided_steps(
    first: Seq<AttentionStep>,
    narrow: bool,
    behind: Seq<AttentionStep>,
)
    ensures
        ({
            let copy = optional(narrow, AttentionStep::NarrowQueries);
            let divided = first + (seq![AttentionStep::Append] + copy + seq![AttentionStep::Attend]
                + behind);
            let whole = first + copy + seq![AttentionStep::Append, AttentionStep::Attend] + behind;
            let at = first.len() as int;
            if narrow {
                &&& divided[at] is Append && divided[at + 1] is NarrowQueries
                &&& whole == divided.update(at, AttentionStep::NarrowQueries).update(
                    at + 1,
                    AttentionStep::Append,
                )
            } else {
                whole == divided
            }
        }),
{
    let copy = optional(narrow, AttentionStep::NarrowQueries);
    let divided = first + (seq![AttentionStep::Append] + copy + seq![AttentionStep::Attend]
        + behind);
    let whole = first + copy + seq![AttentionStep::Append, AttentionStep::Attend] + behind;
    let at = first.len() as int;
    if narrow {
        assert(whole =~= divided.update(at, AttentionStep::NarrowQueries).update(
            at + 1,
            AttentionStep::Append,
        ));
    } else {
        assert(whole =~= divided);
    }
}

/// What an attention block works on: its buffers, and the cache.
pub struct AttentionRun<F> {
    pub q: Seq<F>,
    pub k: Seq<F>,
    pub v: Seq<F>,
    pub gate: Seq<F>,
    /// The sixteen-bit copy of the queries.
    pub narrow: Option<Seq<u16>>,
    pub attended: Seq<F>,
    pub output: Seq<F>,
    pub kv: KvContents<F>,
}

/// The arithmetic of an attention block, which is the caller's.
#[verifier::reject_recursive_types(F)]
pub struct AttentionMath<'a, F> {
    /// Keys and values in the format of the cache.
    pub rows: spec_fn(Seq<F>, Seq<F>) -> KvRows<'a, F>,
    /// Queries in sixteen bits.
    pub halves: spec_fn(Seq<F>) -> Seq<u16>,
    /// What every other step does to the buffers. It may read the cache.
    pub buffers: spec_fn(AttentionStep, AttentionRun<F>) -> AttentionRun<F>,
}

impl<'a, F> AttentionMath<'a, F> {
    /// What one step makes of a run. Only appending changes the cache.
    pub open spec fn after_step(
        self,
        run: AttentionRun<F>,
        layer: int,
        step: AttentionStep,
    ) -> AttentionRun<F> {
        match step {
            AttentionStep::Append => AttentionRun {
                kv: run.kv.appended(layer, (self.rows)(run.k, run.v)),
                ..run
            },
            AttentionStep::NarrowQueries => AttentionRun {
                narrow: Some((self.halves)(run.q)),
                ..run
            },
            _ => AttentionRun { kv: run.kv, ..(self.buffers)(step, run) },
        }
    }

    /// What some steps make of a run.
    pub open spec fn after_steps(
        self,
        run: AttentionRun<F>,
        layer: int,
        steps: Seq<AttentionStep>,
    ) -> AttentionRun<F>
        decreases steps.len(),
    {
        if steps.len() == 0 {
            run
        } else {
            self.after_step(
                self.after_steps(run, layer, steps.drop_last()),
                layer,
                steps.last(),
            )
        }
    }
}

/// Steps behind each other are run behind each other.
proof fn lemma_steps_join<'a, F>(
    math: AttentionMath<'a, F>,
    run: AttentionRun<F>,
    layer: int,
    first: Seq<AttentionStep>,
    later: Seq<AttentionStep>,
)
    ensures
        math.after_steps(run, layer, first + later) == math.after_steps(
            math.after_steps(run, layer, first),
            layer,
            later,
        ),
    decreases later.len(),
{
    if later.len() == 0 {
        assert(first + later =~= first);
    } else {
        assert((first + later).drop_last() =~= first + later.drop_last());
        lemma_steps_join(math, run, layer, first, later.drop_last());
    }
}

/// None of the steps appends.
#[verifier::opaque]
spec fn appends_nothing(steps: Seq<AttentionStep>) -> bool {
    forall|i: int| 0 <= i < steps.len() ==> !((#[trigger] steps[i]) is Append)
}

proof fn lemma_more_append_nothing(steps: Seq<AttentionStep>, taken: bool, step: AttentionStep)
    requires
        appends_nothing(steps),
        !(step is Append),
    ensures
        appends_nothing(steps + optional(taken, step)),
{
    reveal(appends_nothing);
    let more = steps + optional(taken, step);
    assert forall|i: int| 0 <= i < more.len() implies !((#[trigger] more[i]) is Append) by {
        if i < steps.len() {
            assert(more[i] == steps[i]);
        }
    }
}

/// The first phase does not append.
proof fn lemma_first_phase_appends_nothing(shape: AttentionShape)
    ensures
        appends_nothing(shape.phase_a_steps()),
{
    let s0 = seq![AttentionStep::Project];
    assert(appends_nothing(s0)) by {
        reveal(appends_nothing);
    }
    let s1 = s0 + optional(shape.has_output_gate, AttentionStep::SplitGate);
    let s2 = s1 + optional(shape.q_bias, AttentionStep::AddQueryBias);
    let s3 = s2 + optional(shape.k_bias, AttentionStep::AddKeyBias);
    let s4 = s3 + optional(shape.v_bias, AttentionStep::AddValueBias);
    let s5 = s4 + optional(shape.q_norm && shape.k_norm, AttentionStep::NormQueries);
    let s6 = s5 + optional(shape.q_norm && shape.k_norm, AttentionStep::NormKeys);
    lemma_more_append_nothing(s0, shape.has_output_gate, AttentionStep::SplitGate);
    lemma_more_append_nothing(s1, shape.q_bias, AttentionStep::AddQueryBias);
    lemma_more_append_nothing(s2, shape.k_bias, AttentionStep::AddKeyBias);
    lemma_more_append_nothing(s3, shape.v_bias, AttentionStep::AddValueBias);
    lemma_more_append_nothing(s4, shape.q_norm && shape.k_norm, AttentionStep::NormQueries);
    lemma_more_append_nothing(s5, shape.q_norm && shape.k_norm, AttentionStep::NormKeys);
    lemma_more_append_nothing(s6, shape.use_rope, AttentionStep::Rotate);
}

/// The steps that remain behind appending.
spec fn steps_behind(shape: AttentionShape) -> Seq<AttentionStep> {
    seq![AttentionStep::Attend] + shape.output_steps()
}

/// The steps behind appending do not append again.
proof fn lemma_rest_appends_nothing(shape: AttentionShape)
    ensures
        appends_nothing(steps_behind(shape)),
{
    reveal(appends_nothing);
}

/// Steps that do not append leave the cache alone.
proof fn lemma_cache_stays<'a, F>(
    math: AttentionMath<'a, F>,
    run: AttentionRun<F>,
    layer: int,
    steps: Seq<AttentionStep>,
)
    requires
        appends_nothing(steps),
    ensures
        math.after_steps(run, layer, steps).kv == run.kv,
    decreases steps.len(),
{
    reveal(appends_nothing);
    if steps.len() > 0 {
        let rest = steps.drop_last();
        assert forall|i: int| 0 <= i < rest.len() implies !((#[trigger] rest[i]) is Append) by {
            assert(rest[i] == steps[i]);
        }
        lemma_cache_stays(math, run, layer, rest);
        assert(!(steps[steps.len() - 1] is Append));
    }
}

/// Appending and making the sixteen-bit copy can change places.
proof fn lemma_narrow_and_append<'a, F>(
    math: AttentionMath<'a, F>,
    run: AttentionRun<F>,
    layer: int,
    narrow: bool,
)
    ensures
        ({
            let copy = optional(narrow, AttentionStep::NarrowQueries);
            let append = seq![AttentionStep::Append];
            let after = math.after_steps(run, layer, copy + append);
            &&& after == math.after_steps(run, layer, append + copy)
            &&& after.kv == run.kv.appended(layer, (math.rows)(run.k, run.v))
        }),
{
    let copy = optional(narrow, AttentionStep::NarrowQueries);
    let append = seq![AttentionStep::Append];
    lemma_steps_join(math, run, layer, copy, append);
    lemma_steps_join(math, run, layer, append, copy);
    lemma_one_step(math, run, layer, AttentionStep::Append);
    if narrow {
        let copied = math.after_step(run, layer, AttentionStep::NarrowQueries);
        let appended = math.after_step(run, layer, AttentionStep::Append);
        lemma_one_step(math, run, layer, AttentionStep::NarrowQueries);
        lemma_one_step(math, copied, layer, AttentionStep::Append);
        lemma_one_step(math, appended, layer, AttentionStep::NarrowQueries);
    }
}

proof fn lemma_one_step<'a, F>(
    math: AttentionMath<'a, F>,
    run: AttentionRun<F>,
    layer: int,
    step: AttentionStep,
)
    ensures
        math.after_steps(run, layer, seq![step]) == math.after_step(run, layer, step),
{
    assert(seq![step].drop_last() =~= Seq::<AttentionStep>::empty());
    assert(math.after_steps(run, layer, Seq::<AttentionStep>::empty()) == run);
}

/// The steps of a prefill, taken apart where it appends.
proof fn lemma_steps_apart(first: Seq<AttentionStep>, narrow: bool, behind: Seq<AttentionStep>)
    ensures
        ({
            let copy = optional(narrow, AttentionStep::NarrowQueries);
            let append = seq![AttentionStep::Append];
            let attend = seq![AttentionStep::Attend];
            &&& first + copy + seq![AttentionStep::Append, AttentionStep::Attend] + behind == first
                + ((copy + append) + (attend + behind))
            &&& append + copy + attend + behind == (append + copy) + (attend + behind)
        }),
{
    let copy = optional(narrow, AttentionStep::NarrowQueries);
    let append = seq![AttentionStep::Append];
    let attend = seq![AttentionStep::Attend];
    assert(first + copy + seq![AttentionStep::Append, AttentionStep::Attend] + behind =~= first + ((
    copy + append) + (attend + behind)));
    assert(append + copy + attend + behind =~= (append + copy) + (attend + behind));
}

/// Making the copy before or behind appending, a run ends alike, with the keys and
/// values of its first part appended.
proof fn lemma_parts_end_alike<'a, F>(
    math: AttentionMath<'a, F>,
    start: AttentionRun<F>,
    layer: int,
    first: Seq<AttentionStep>,
    narrow: bool,
    rest: Seq<AttentionStep>,
)
    requires
        appends_nothing(first),
        appends_nothing(rest),
    ensures
        ({
            let copy = optional(narrow, AttentionStep::NarrowQueries);
            let append = seq![AttentionStep::Append];
            let whole = math.after_steps(start, layer, first + ((copy + append) + rest));
            let middle = math.after_steps(start, layer, first);
            let divided = math.after_steps(middle, layer, (append + copy) + rest);
            &&& divided == whole
            &&& middle.kv == start.kv
            &&& whole.kv == start.kv.appended(layer, (math.rows)(middle.k, middle.v))
        }),
{
    let copy = optional(narrow, AttentionStep::NarrowQueries);
    let append = seq![AttentionStep::Append];
    let middle = math.after_steps(start, layer, first);
    lemma_steps_join(math, start, layer, first, (copy + append) + rest);
    lemma_steps_join(math, middle, layer, copy + append, rest);
    lemma_steps_join(math, middle, layer, append + copy, rest);
    lemma_narrow_and_append(math, middle, layer, narrow);
    lemma_cache_stays(math, start, layer, first);
    lemma_cache_stays(math, math.after_steps(middle, layer, copy + append), layer, rest);
}

/// A prefill in two phases gives the same output and leaves the same buffers and cache
/// as a prefill in one, whatever the arithmetic is. Both append the keys and values of
/// the first phase to one layer and change nothing else in the cache: the layer then
/// holds the new positions behind those that it held, the other layers are as they were,
/// and the length of the sequence is not counted up.
pub proof fn law_phases_give_the_same_result<'a, F>(
    shape: AttentionShape,
    avx512bf16: bool,
    math: AttentionMath<'a, F>,
    start: AttentionRun<F>,
    layer: int,
    held: int,
)
    requires
        0 <= layer < start.kv.layers.len(),
    ensures
        ({
            let whole = math.after_steps(start, layer, shape.prefill_steps(avx512bf16));
            let middle = math.after_steps(start, layer, shape.phase_a_steps());
            let divided = math.after_steps(middle, layer, shape.phase_b_steps(avx512bf16));
            let rows = (math.rows)(middle.k, middle.v);
            let heads = start.kv.num_kv_heads as int;
            let head_dim = start.kv.head_dim as int;
            &&& divided == whole
            &&& middle.kv == start.kv
            &&& whole.kv == start.kv.appended(layer, rows)
            &&& whole.kv.seq_len == start.kv.seq_len
            &&& forall|l: int|
                0 <= l < start.kv.layers.len() && l != layer ==> #[trigger] whole.kv.layers[l]
                    == start.kv.layers[l]
            &&& held >= 0 && heads * head_dim > 0 && start.kv.layers[layer].holds(
                heads,
                head_dim,
                held,
            ) && start.kv.layers[layer].accepts(rows, heads, head_dim) ==> {
                &&& whole.kv.layers[layer].holds(
                    heads,
                    head_dim,
                    held + rows.positions(heads, head_dim),
                )
                &&& whole.kv.layers[layer].cut_to(held, head_dim) == start.kv.layers[layer]
            }
        }),
{
    lemma_steps_apart(
        shape.phase_a_steps(),
        shape.use_q_bf16 && avx512bf16,
        shape.output_steps(),
    );
    lemma_first_phase_appends_nothing(shape);
    lemma_rest_appends_nothing(shape);
    lemma_parts_end_alike(
        math,
        start,
        layer,
        shape.phase_a_steps(),
        shape.use_q_bf16 && avx512bf16,
        steps_behind(shape),
    );
    let middle = math.after_steps(start, layer, shape.phase_a_steps());
    let rows = (math.rows)(middle.k, middle.v);
    let heads = start.kv.num_kv_heads as int;
    let head_dim = start.kv.head_dim as int;
    let before = start.kv.layers[layer];
    if held >= 0 && heads * head_dim > 0 && before.holds(heads, head_dim, held)
        && before.accepts(rows, heads, head_dim) {
        law_append_adds_positions(before, rows, heads, head_dim, held);
        law_cut_undoes_append(before, rows, heads, head_dim, held);
    }
}

/// Decode and prefill take the same steps, unless only one of queries and keys has a
/// norm: prefill then normalises neither.
pub proof fn law_decode_and_prefill_agree(shape: AttentionShape, avx512bf16: bool)
    requires
        shape.q_norm == shape.k_norm,
    ensures
        shape.decode_steps(avx512bf16) == shape.prefill_steps(avx512bf16),
{
    assert(shape.decode_steps(avx512bf16) =~= shape.prefill_steps(avx512bf16));
}

/// The place of a step in an attention block: what makes queries, keys and values, then
/// what changes them, then the cache, then attending, then what is made of its result.
/// The sixteen-bit copy of the queries is made just before appending, or just behind it.
pub open spec fn block_place(step: AttentionStep, copy_first: bool) -> int {
    match step {
        AttentionStep::Project => 0,
        AttentionStep::SplitGate => 1,
        AttentionStep::AddQueryBias => 2,
        AttentionStep::AddKeyBias => 3,
        AttentionStep::AddValueBias => 4,
        AttentionStep::NormQueries => 5,
        AttentionStep::NormKeys => 6,
        AttentionStep::Rotate => 7,
        AttentionStep::NarrowQueries => if copy_first {
            8
        } else {
            9
        },
        AttentionStep::Append => if copy_first {
            9
        } else {
            8
        },
        AttentionStep::Attend => 10,
        AttentionStep::ApplyGate => 11,
        AttentionStep::ProjectOut => 12,
        AttentionStep::AddOutputBias => 13,
    }
}

/// The steps come in the order of their places, none of them twice.
pub open spec fn in_block_order(steps: Seq<AttentionStep>, copy_first: bool) -> bool {
    forall|i: int, j: int|
        0 <= i < j < steps.len() ==> block_place(#[trigger] steps[i], copy_first) < block_place(
            #[trigger] steps[j],
            copy_first,
        )
}

/// The steps are in order, and are those with places below `bound` that are taken.
#[verifier::opaque]
spec fn takes_exactly(
    steps: Seq<AttentionStep>,
    takes: spec_fn(AttentionStep) -> bool,
    copy_first: bool,
    bound: int,
) -> bool {
    &&& in_block_order(steps, copy_first)
    &&& forall|step: AttentionStep| #[trigger]
        steps.contains(step) <==> takes(step) && block_place(step, copy_first) < bound
}

proof fn lemma_next_step(
    steps: Seq<AttentionStep>,
    takes: spec_fn(AttentionStep) -> bool,
    copy_first: bool,
    bound: int,
    taken: bool,
    step: AttentionStep,
)
    requires
        takes_exactly(steps, takes, copy_first, bound),
        block_place(step, copy_first) == bound,
        taken == takes(step),
    ensures
        takes_exactly(steps + optional(taken, step), takes, copy_first, bound + 1),
{
    reveal(takes_exactly);
    let more = steps + optional(taken, step);
    assert forall|i: int, j: int| 0 <= i < j < more.len() implies block_place(
        #[trigger] more[i],
        copy_first,
    ) < block_place(#[trigger] more[j], copy_first) by {
        assert(more[i] == steps[i]);
        assert(steps.contains(steps[i]));
        if j < steps.len() {
            assert(more[j] == steps[j]);
        }
    }
    assert forall|x: AttentionStep| #[trigger] more.contains(x) implies takes(x) && block_place(
        x,
        copy_first,
    ) < bound + 1 by {
        let i = choose|i: int| 0 <= i < more.len() && more[i] == x;
        if i < steps.len() {
            assert(steps[i] == x);
            assert(steps.contains(x));
        }
    }
    assert forall|x: AttentionStep|
        takes(x) && block_place(x, copy_first) < bound + 1 implies #[trigger] more.contains(x) by {
        if block_place(x, copy_first) < bound {
            assert(steps.contains(x));
            let i = choose|i: int| 0 <= i < steps.len() && steps[i] == x;
            assert(more[i] == x);
        } else {
            assert(x == step);
            assert(more[steps.len() as int] == x);
        }
    }
}

proof fn lemma_takes_those(
    steps: Seq<AttentionStep>,
    takes: spec_fn(AttentionStep) -> bool,
    copy_first: bool,
    bound: int,
)
    requires
        takes_exactly(steps, takes, copy_first, bound),
    ensures
        in_block_order(steps, copy_first),
        steps.contains(AttentionStep::Project) <==> takes(AttentionStep::Project) && block_place(
            AttentionStep::Project,
            copy_first,
        ) < bound,
        steps.contains(AttentionStep::SplitGate) <==>
            takes(AttentionStep::SplitGate) && block_place(
            AttentionStep::SplitGate,
            copy_first,
        ) < bound,
        steps.contains(AttentionStep::AddQueryBias) <==>
            takes(AttentionStep::AddQueryBias) && block_place(
            AttentionStep::AddQueryBias,
            copy_first,
        ) < bound,
        steps.contains(AttentionStep::AddKeyBias) <==>
            takes(AttentionStep::AddKeyBias) && block_place(
            AttentionStep::AddKeyBias,
            copy_first,
        ) < bound,
        steps.contains(AttentionStep::AddValueBias) <==>
            takes(AttentionStep::AddValueBias) && block_place(
            AttentionStep::AddValueBias,
            copy_first,
        ) < bound,
        steps.contains(AttentionStep::NormQueries) <==>
            takes(AttentionStep::NormQueries) && block_place(
            AttentionStep::NormQueries,
            copy_first,
        ) < bound,
        steps.contains(AttentionStep::NormKeys) <==> takes(AttentionStep::NormKeys) && block_place(
            AttentionStep::NormKeys,
            copy_first,
        ) < bound,
        steps.contains(AttentionStep::Rotate) <==> takes(AttentionStep::Rotate) && block_place(
            AttentionStep::Rotate,
            copy_first,
        ) < bound,
        steps.contains(AttentionStep::NarrowQueries) <==>
            takes(AttentionStep::NarrowQueries) && block_place(
            AttentionStep::NarrowQueries,
            copy_first,
        ) < bound,
        steps.contains(AttentionStep::Append) <==> takes(AttentionStep::Append) && block_place(
            AttentionStep::Append,
            copy_first,
        ) < bound,
        steps.contains(AttentionStep::Attend) <==> takes(AttentionStep::Attend) && block_place(
            AttentionStep::Attend,
            copy_first,
        ) < bound,
        steps.contains(AttentionStep::ApplyGate) <==>
            takes(AttentionStep::ApplyGate) && block_place(
            AttentionStep::ApplyGate,
            copy_first,
        ) < bound,
        steps.contains(AttentionStep::ProjectOut) <==>
            takes(AttentionStep::ProjectOut) && block_place(
            AttentionStep::ProjectOut,
            copy_first,
        ) < bound,
        steps.contains(AttentionStep::AddOutputBias) <==>
            takes(AttentionStep::AddOutputBias) && block_place(
            AttentionStep::AddOutputBias,
            copy_first,
        ) < bound,
{
    reveal(takes_exactly);
}

proof fn lemma_projection_parts(shape: AttentionShape)
    ensures
        shape.projection_steps() == Seq::<AttentionStep>::empty() + optional(
            true,
            AttentionStep::Project,
        ) + optional(shape.has_output_gate, AttentionStep::SplitGate) + optional(
            shape.q_bias,
            AttentionStep::AddQueryBias,
        ) + optional(shape.k_bias, AttentionStep::AddKeyBias) + optional(
            shape.v_bias,
            AttentionStep::AddValueBias,
        ),
{
    assert(Seq::<AttentionStep>::empty() + optional(true, AttentionStep::Project)
        =~= seq![AttentionStep::Project]);
}

proof fn lemma_output_parts(shape: AttentionShape, before: Seq<AttentionStep>)
    ensures
        before + shape.output_steps() == before + optional(
            shape.has_output_gate,
            AttentionStep::ApplyGate,
        ) + optional(true, AttentionStep::ProjectOut) + optional(
            shape.o_bias,
            AttentionStep::AddOutputBias,
        ),
{
    let a = optional(shape.has_output_gate, AttentionStep::ApplyGate);
    let b = optional(true, AttentionStep::ProjectOut);
    let c = optional(shape.o_bias, AttentionStep::AddOutputBias);
    assert(b == seq![AttentionStep::ProjectOut]);
    assert(before + (a + b + c) =~= before + a + b + c);
}

proof fn lemma_append_and_attend(before: Seq<AttentionStep>)
    ensures
        before + seq![AttentionStep::Append, AttentionStep::Attend] == before + optional(
            true,
            AttentionStep::Append,
        ) + optional(true, AttentionStep::Attend),
{
    assert(before + seq![AttentionStep::Append, AttentionStep::Attend] =~= before + optional(
        true,
        AttentionStep::Append,
    ) + optional(true, AttentionStep::Attend));
}

/// The steps that are taken.
spec fn decode_takes(shape: AttentionShape, avx512bf16: bool) -> spec_fn(AttentionStep) -> bool {
    |step: AttentionStep|
        match step {
            AttentionStep::Project => true,
            AttentionStep::SplitGate => shape.has_output_gate,
            AttentionStep::AddQueryBias => shape.q_bias,
            AttentionStep::AddKeyBias => shape.k_bias,
            AttentionStep::AddValueBias => shape.v_bias,
            AttentionStep::NormQueries => shape.q_norm,
            AttentionStep::NormKeys => shape.k_norm,
            AttentionStep::Rotate => shape.use_rope,
            AttentionStep::NarrowQueries => shape.use_q_bf16 && avx512bf16,
            AttentionStep::Append => true,
            AttentionStep::Attend => true,
            AttentionStep::ApplyGate => shape.has_output_gate,
            AttentionStep::ProjectOut => true,
            AttentionStep::AddOutputBias => shape.o_bias,
        }
}

#[verifier::spinoff_prover]
proof fn lemma_decode_steps(shape: AttentionShape, avx512bf16: bool)
    ensures
        takes_exactly(shape.decode_steps(avx512bf16), decode_takes(shape, avx512bf16), true, 14),
{
    let takes = decode_takes(shape, avx512bf16);
    let copy_first = true;
    let s0 = Seq::<AttentionStep>::empty();
    assert(takes_exactly(s0, takes, copy_first, 0)) by {
        reveal(takes_exactly);
    }
    let s1 = s0 + optional(true, AttentionStep::Project);
    lemma_next_step(s0, takes, copy_first, 0, true, AttentionStep::Project);
    let s2 = s1 + optional(shape.has_output_gate, AttentionStep::SplitGate);
    lemma_next_step(s1, takes, copy_first, 1, shape.has_output_gate, AttentionStep::SplitGate);
    let s3 = s2 + optional(shape.q_bias, AttentionStep::AddQueryBias);
    lemma_next_step(s2, takes, copy_first, 2, shape.q_bias, AttentionStep::AddQueryBias);
    let s4 = s3 + optional(shape.k_bias, AttentionStep::AddKeyBias);
    lemma_next_step(s3, takes, copy_first, 3, shape.k_bias, AttentionStep::AddKeyBias);
    let s5 = s4 + optional(shape.v_bias, AttentionStep::AddValueBias);
    lemma_next_step(s4, takes, copy_first, 4, shape.v_bias, AttentionStep::AddValueBias);
    let s6 = s5 + optional(shape.q_norm, AttentionStep::NormQueries);
    lemma_next_step(s5, takes, copy_first, 5, shape.q_norm, AttentionStep::NormQueries);
    let s7 = s6 + optional(shape.k_norm, AttentionStep::NormKeys);
    lemma_next_step(s6, takes, copy_first, 6, shape.k_norm, AttentionStep::NormKeys);
    let s8 = s7 + optional(shape.use_rope, AttentionStep::Rotate);
    lemma_next_step(s7, takes, copy_first, 7, shape.use_rope, AttentionStep::Rotate);
    let s9 = s8 + optional(shape.use_q_bf16 && avx512bf16, AttentionStep::NarrowQueries);
    lemma_next_step(
        s8,
        takes,
        copy_first,
        8,
        shape.use_q_bf16 && avx512bf16,
        AttentionStep::NarrowQueries,
    );
    let s10 = s9 + optional(true, AttentionStep::Append);
    lemma_next_step(s9, takes, copy_first, 9, true, AttentionStep::Append);
    let s11 = s10 + optional(true, AttentionStep::Attend);
    lemma_next_step(s10, takes, copy_first, 10, true, AttentionStep::Attend);
    let s12 = s11 + optional(shape.has_output_gate, AttentionStep::ApplyGate);
    lemma_next_step(s11, takes, copy_first, 11, shape.has_output_gate, AttentionStep::ApplyGate);
    let s13 = s12 + optional(true, AttentionStep::ProjectOut);
    lemma_next_step(s12, takes, copy_first, 12, true, AttentionStep::ProjectOut);
    let s14 = s13 + optional(shape.o_bias, AttentionStep::AddOutputBias);
    lemma_next_step(s13, takes, copy_first, 13, shape.o_bias, AttentionStep::AddOutputBias);
    lemma_projection_parts(shape);
    lemma_output_parts(shape, s11);
    lemma_append_and_attend(s9);
}

/// Decoding takes every step that the block asks for, each once and in the order of the
/// places, and no other.
pub proof fn law_decode_takes_its_steps(shape: AttentionShape, avx512bf16: bool)
    ensures
        in_block_order(shape.decode_steps(avx512bf16), true),
        shape.decode_steps(avx512bf16).contains(AttentionStep::Project),
        shape.decode_steps(avx512bf16).contains(AttentionStep::SplitGate) <==>
            shape.has_output_gate,
        shape.decode_steps(avx512bf16).contains(AttentionStep::AddQueryBias) <==> shape.q_bias,
        shape.decode_steps(avx512bf16).contains(AttentionStep::AddKeyBias) <==> shape.k_bias,
        shape.decode_steps(avx512bf16).contains(AttentionStep::AddValueBias) <==> shape.v_bias,
        shape.decode_steps(avx512bf16).contains(AttentionStep::NormQueries) <==> shape.q_norm,
        shape.decode_steps(avx512bf16).contains(AttentionStep::NormKeys) <==> shape.k_norm,
        shape.decode_steps(avx512bf16).contains(AttentionStep::Rotate) <==> shape.use_rope,
        shape.decode_steps(avx512bf16).contains(AttentionStep::NarrowQueries) <==>
            shape.use_q_bf16 && avx512bf16,
        shape.decode_steps(avx512bf16).contains(AttentionStep::Append),
        shape.decode_steps(avx512bf16).contains(AttentionStep::Attend),
        shape.decode_steps(avx512bf16).contains(AttentionStep::ApplyGate) <==>
            shape.has_output_gate,
        shape.decode_steps(avx512bf16).contains(AttentionStep::ProjectOut),
        shape.decode_steps(avx512bf16).contains(AttentionStep::AddOutputBias) <==> shape.o_bias,
{
    lemma_decode_steps(shape, avx512bf16);
    lemma_takes_those(shape.decode_steps(avx512bf16), decode_takes(shape, avx512bf16), true, 14);
}

/// The steps that are taken.
spec fn prefill_takes(shape: AttentionShape, avx512bf16: bool) -> spec_fn(AttentionStep) -> bool {
    |step: AttentionStep|
        match step {
            AttentionStep::Project => true,
            AttentionStep::SplitGate => shape.has_output_gate,
            AttentionStep::AddQueryBias => shape.q_bias,
            AttentionStep::AddKeyBias => shape.k_bias,
            AttentionStep::AddValueBias => shape.v_bias,
            AttentionStep::NormQueries => shape.q_norm && shape.k_norm,
            AttentionStep::NormKeys => shape.q_norm && shape.k_norm,
            AttentionStep::Rotate => shape.use_rope,
            AttentionStep::NarrowQueries => shape.use_q_bf16 && avx512bf16,
            AttentionStep::Append => true,
            AttentionStep::Attend => true,
            AttentionStep::ApplyGate => shape.has_output_gate,
            AttentionStep::ProjectOut => true,
            AttentionStep::AddOutputBias => shape.o_bias,
        }
}

#[verifier::spinoff_prover]
proof fn lemma_prefill_steps(shape: AttentionShape, avx512bf16: bool)
    ensures
        takes_exactly(shape.prefill_steps(avx512bf16), prefill_takes(shape, avx512bf16), true, 14),
{
    let takes = prefill_takes(shape, avx512bf16);
    let copy_first = true;
    let s0 = Seq::<AttentionStep>::empty();
    assert(takes_exactly(s0, takes, copy_first, 0)) by {
        reveal(takes_exactly);
    }
    let s1 = s0 + optional(true, AttentionStep::Project);
    lemma_next_step(s0, takes, copy_first, 0, true, AttentionStep::Project);
    let s2 = s1 + optional(shape.has_output_gate, AttentionStep::SplitGate);
    lemma_next_step(s1, takes, copy_first, 1, shape.has_output_gate, AttentionStep::SplitGate);
    let s3 = s2 + optional(shape.q_bias, AttentionStep::AddQueryBias);
    lemma_next_step(s2, takes, copy_first, 2, shape.q_bias, AttentionStep::AddQueryBias);
    let s4 = s3 + optional(shape.k_bias, AttentionStep::AddKeyBias);
    lemma_next_step(s3, takes, copy_first, 3, shape.k_bias, AttentionStep::AddKeyBias);
    let s5 = s4 + optional(shape.v_bias, AttentionStep::AddValueBias);
    lemma_next_step(s4, takes, copy_first, 4, shape.v_bias, AttentionStep::AddValueBias);
    let s6 = s5 + optional(shape.q_norm && shape.k_norm, AttentionStep::NormQueries);
    lemma_next_step(
        s5,
        takes,
        copy_first,
        5,
        shape.q_norm && shape.k_norm,
        AttentionStep::NormQueries,
    );
    let s7 = s6 + optional(shape.q_norm && shape.k_norm, AttentionStep::NormKeys);
    lemma_next_step(
        s6,
        takes,
        copy_first,
        6,
        shape.q_norm && shape.k_norm,
        AttentionStep::NormKeys,
    );
    let s8 = s7 + optional(shape.use_rope, AttentionStep::Rotate);
    lemma_next_step(s7, takes, copy_first, 7, shape.use_rope, AttentionStep::Rotate);
    let s9 = s8 + optional(shape.use_q_bf16 && avx512bf16, AttentionStep::NarrowQueries);
    lemma_next_step(
        s8,
        takes,
        copy_first,
        8,
        shape.use_q_bf16 && avx512bf16,
        AttentionStep::NarrowQueries,
    );
    let s10 = s9 + optional(true, AttentionStep::Append);
    lemma_next_step(s9, takes, copy_first, 9, true, AttentionStep::Append);
    let s11 = s10 + optional(true, AttentionStep::Attend);
    lemma_next_step(s10, takes, copy_first, 10, true, AttentionStep::Attend);
    let s12 = s11 + optional(shape.has_output_gate, AttentionStep::ApplyGate);
    lemma_next_step(s11, takes, copy_first, 11, shape.has_output_gate, AttentionStep::ApplyGate);
    let s13 = s12 + optional(true, AttentionStep::ProjectOut);
    lemma_next_step(s12, takes, copy_first, 12, true, AttentionStep::ProjectOut);
    let s14 = s13 + optional(shape.o_bias, AttentionStep::AddOutputBias);
    lemma_next_step(s13, takes, copy_first, 13, shape.o_bias, AttentionStep::AddOutputBias);
    lemma_projection_parts(shape);
    lemma_output_parts(shape, s11);
    lemma_append_and_attend(s9);
}

/// A prefill takes every step that the block asks for, each once and in the order of the
/// places, and no other; queries and keys are normalised only together.
pub proof fn law_prefill_takes_its_steps(shape: AttentionShape, avx512bf16: bool)
    ensures
        in_block_order(shape.prefill_steps(avx512bf16), true),
        shape.prefill_steps(avx512bf16).contains(AttentionStep::Project),
        shape.prefill_steps(avx512bf16).contains(AttentionStep::SplitGate) <==>
            shape.has_output_gate,
        shape.prefill_steps(avx512bf16).contains(AttentionStep::AddQueryBias) <==> shape.q_bias,
        shape.prefill_steps(avx512bf16).contains(AttentionStep::AddKeyBias) <==> shape.k_bias,
        shape.prefill_steps(avx512bf16).contains(AttentionStep::AddValueBias) <==> shape.v_bias,
        shape.prefill_steps(avx512bf16).contains(AttentionStep::NormQueries) <==>
            shape.q_norm && shape.k_norm,
        shape.prefill_steps(avx512bf16).contains(AttentionStep::NormKeys) <==>
            shape.q_norm && shape.k_norm,
        shape.prefill_steps(avx512bf16).contains(AttentionStep::Rotate) <==> shape.use_rope,
        shape.prefill_steps(avx512bf16).contains(AttentionStep::NarrowQueries) <==>
            shape.use_q_bf16 && avx512bf16,
        shape.prefill_steps(avx512bf16).contains(AttentionStep::Append),
        shape.prefill_steps(avx512bf16).contains(AttentionStep::Attend),
        shape.prefill_steps(avx512bf16).contains(AttentionStep::ApplyGate) <==>
            shape.has_output_gate,
        shape.prefill_steps(avx512bf16).contains(AttentionStep::ProjectOut),
        shape.prefill_steps(avx512bf16).contains(AttentionStep::AddOutputBias) <==> shape.o_bias,
{
    lemma_prefill_steps(shape, avx512bf16);
    lemma_takes_those(shape.prefill_steps(avx512bf16), prefill_takes(shape, avx512bf16), true, 14);
}

/// The steps that are taken.
spec fn phase_a_takes(shape: AttentionShape) -> spec_fn(AttentionStep) -> bool {
    |step: AttentionStep|
        match step {
            AttentionStep::Project => true,
            AttentionStep::SplitGate => shape.has_output_gate,
            AttentionStep::AddQueryBias => shape.q_bias,
            AttentionStep::AddKeyBias => shape.k_bias,
            AttentionStep::AddValueBias => shape.v_bias,
            AttentionStep::NormQueries => shape.q_norm && shape.k_norm,
            AttentionStep::NormKeys => shape.q_norm && shape.k_norm,
            AttentionStep::Rotate => shape.use_rope,
            AttentionStep::NarrowQueries => false,
            AttentionStep::Append => false,
            AttentionStep::Attend => false,
            AttentionStep::ApplyGate => false,
            AttentionStep::ProjectOut => false,
            AttentionStep::AddOutputBias => false,
        }
}

#[verifier::spinoff_prover]
proof fn lemma_phase_a_steps(shape: AttentionShape)
    ensures
        takes_exactly(shape.phase_a_steps(), phase_a_takes(shape), true, 8),
{
    let takes = phase_a_takes(shape);
    let copy_first = true;
    let s0 = Seq::<AttentionStep>::empty();
    assert(takes_exactly(s0, takes, copy_first, 0)) by {
        reveal(takes_exactly);
    }
    let s1 = s0 + optional(true, AttentionStep::Project);
    lemma_next_step(s0, takes, copy_first, 0, true, AttentionStep::Project);
    let s2 = s1 + optional(shape.has_output_gate, AttentionStep::SplitGate);
    lemma_next_step(s1, takes, copy_first, 1, shape.has_output_gate, AttentionStep::SplitGate);
    let s3 = s2 + optional(shape.q_bias, AttentionStep::AddQueryBias);
    lemma_next_step(s2, takes, copy_first, 2, shape.q_bias, AttentionStep::AddQueryBias);
    let s4 = s3 + optional(shape.k_bias, AttentionStep::AddKeyBias);
    lemma_next_step(s3, takes, copy_first, 3, shape.k_bias, AttentionStep::AddKeyBias);
    let s5 = s4 + optional(shape.v_bias, AttentionStep::AddValueBias);
    lemma_next_step(s4, takes, copy_first, 4, shape.v_bias, AttentionStep::AddValueBias);
    let s6 = s5 + optional(shape.q_norm && shape.k_norm, AttentionStep::NormQueries);
    lemma_next_step(
        s5,
        takes,
        copy_first,
        5,
        shape.q_norm && shape.k_norm,
        AttentionStep::NormQueries,
    );
    let s7 = s6 + optional(shape.q_norm && shape.k_norm, AttentionStep::NormKeys);
    lemma_next_step(
        s6,
        takes,
        copy_first,
        6,
        shape.q_norm && shape.k_norm,
        AttentionStep::NormKeys,
    );
    let s8 = s7 + optional(shape.use_rope, AttentionStep::Rotate);
    lemma_next_step(s7, takes, copy_first, 7, shape.use_rope, AttentionStep::Rotate);
    lemma_projection_parts(shape);
}

/// The first phase of a prefill ends before the cache is used.
pub proof fn law_first_phase_takes_its_steps(shape: AttentionShape)
    ensures
        in_block_order(shape.phase_a_steps(), true),
        shape.phase_a_steps().contains(AttentionStep::Project),
        shape.phase_a_steps().contains(AttentionStep::SplitGate) <==> shape.has_output_gate,
        shape.phase_a_steps().contains(AttentionStep::AddQueryBias) <==> shape.q_bias,
        shape.phase_a_steps().contains(AttentionStep::AddKeyBias) <==> shape.k_bias,
        shape.phase_a_steps().contains(AttentionStep::AddValueBias) <==> shape.v_bias,
        shape.phase_a_steps().contains(AttentionStep::NormQueries) <==>
            shape.q_norm && shape.k_norm,
        shape.phase_a_steps().contains(AttentionStep::NormKeys) <==> shape.q_norm && shape.k_norm,
        shape.phase_a_steps().contains(AttentionStep::Rotate) <==> shape.use_rope,
        !shape.phase_a_steps().contains(AttentionStep::NarrowQueries),
        !shape.phase_a_steps().contains(AttentionStep::Append),
        !shape.phase_a_steps().contains(AttentionStep::Attend),
        !shape.phase_a_steps().contains(AttentionStep::ApplyGate),
        !shape.phase_a_steps().contains(AttentionStep::ProjectOut),
        !shape.phase_a_steps().contains(AttentionStep::AddOutputBias),
{
    lemma_phase_a_steps(shape);
    lemma_takes_those(shape.phase_a_steps(), phase_a_takes(shape), true, 8);
}

/// The steps that are taken.
spec fn phase_b_takes(shape: AttentionShape, avx512bf16: bool) -> spec_fn(AttentionStep) -> bool {
    |step: AttentionStep|
        match step {
            AttentionStep::Project => false,
            AttentionStep::SplitGate => false,
            AttentionStep::AddQueryBias => false,
            AttentionStep::AddKeyBias => false,
            AttentionStep::AddValueBias => false,
            AttentionStep::NormQueries => false,
            AttentionStep::NormKeys => false,
            AttentionStep::Rotate => false,
            AttentionStep::NarrowQueries => shape.use_q_bf16 && avx512bf16,
            AttentionStep::Append => true,
            AttentionStep::Attend => true,
            AttentionStep::ApplyGate => shape.has_output_gate,
            AttentionStep::ProjectOut => true,
            AttentionStep::AddOutputBias => shape.o_bias,
        }
}

#[verifier::spinoff_prover]
proof fn lemma_phase_b_steps(shape: AttentionShape, avx512bf16: bool)
    ensures
        takes_exactly(shape.phase_b_steps(avx512bf16), phase_b_takes(shape, avx512bf16), false, 14),
{
    let takes = phase_b_takes(shape, avx512bf16);
    let copy_first = false;
    let s0 = Seq::<AttentionStep>::empty();
    assert(takes_exactly(s0, takes, copy_first, 8)) by {
        reveal(takes_exactly);
    }
    let s1 = s0 + optional(true, AttentionStep::Append);
    lemma_next_step(s0, takes, copy_first, 8, true, AttentionStep::Append);
    let s2 = s1 + optional(shape.use_q_bf16 && avx512bf16, AttentionStep::NarrowQueries);
    lemma_next_step(
        s1,
        takes,
        copy_first,
        9,
        shape.use_q_bf16 && avx512bf16,
        AttentionStep::NarrowQueries,
    );
    let s3 = s2 + optional(true, AttentionStep::Attend);
    lemma_next_step(s2, takes, copy_first, 10, true, AttentionStep::Attend);
    let s4 = s3 + optional(shape.has_output_gate, AttentionStep::ApplyGate);
    lemma_next_step(s3, takes, copy_first, 11, shape.has_output_gate, AttentionStep::ApplyGate);
    let s5 = s4 + optional(true, AttentionStep::ProjectOut);
    lemma_next_step(s4, takes, copy_first, 12, true, AttentionStep::ProjectOut);
    let s6 = s5 + optional(shape.o_bias, AttentionStep::AddOutputBias);
    lemma_next_step(s5, takes, copy_first, 13, shape.o_bias, AttentionStep::AddOutputBias);
    lemma_output_parts(shape, s3);
    assert(s1 =~= seq![AttentionStep::Append]);
    assert(optional(true, AttentionStep::Attend) == seq![AttentionStep::Attend]);
}

/// The second phase of a prefill starts with the cache, and takes what the first left.
pub proof fn law_second_phase_takes_its_steps(shape: AttentionShape, avx512bf16: bool)
    ensures
        in_block_order(shape.phase_b_steps(avx512bf16), false),
        !shape.phase_b_steps(avx512bf16).contains(AttentionStep::Project),
        !shape.phase_b_steps(avx512bf16).contains(AttentionStep::SplitGate),
        !shape.phase_b_steps(avx512bf16).contains(AttentionStep::AddQueryBias),
        !shape.phase_b_steps(avx512bf16).contains(AttentionStep::AddKeyBias),
        !shape.phase_b_steps(avx512bf16).contains(AttentionStep::AddValueBias),
        !shape.phase_b_steps(avx512bf16).contains(AttentionStep::NormQueries),
        !shape.phase_b_steps(avx512bf16).contains(AttentionStep::NormKeys),
        !shape.phase_b_steps(avx512bf16).contains(AttentionStep::Rotate),
        shape.phase_b_steps(avx512bf16).contains(AttentionStep::NarrowQueries) <==>
            shape.use_q_bf16 && avx512bf16,
        shape.phase_b_steps(avx512bf16).contains(AttentionStep::Append),
        shape.phase_b_steps(avx512bf16).contains(AttentionStep::Attend),
        shape.phase_b_steps(avx512bf16).contains(AttentionStep::ApplyGate) <==>
            shape.has_output_gate,
        shape.phase_b_steps(avx512bf16).contains(AttentionStep::ProjectOut),
        shape.phase_b_steps(avx512bf16).contains(AttentionStep::AddOutputBias) <==> shape.o_bias,
{
    lemma_phase_b_steps(shape, avx512bf16);
    lemma_takes_those(shape.phase_b_steps(avx512bf16), phase_b_takes(shape, avx512bf16), false, 14);
}

// ---------------------------------------------------------------------------
// Blocks
// ---------------------------------------------------------------------------

/// An attention block. Weights and scalars are the caller's.
pub struct GenericAttention<F, W> {
    pub q_proj: W,
    pub k_proj: W,
    pub v_proj: W,
    pub o_proj: W,
    pub q_norm: Option<Vec<u16>>,
    pub k_norm: Option<Vec<u16>>,
    pub q_bias: Option<Vec<F>>,
    pub k_bias: Option<Vec<F>>,
    pub v_bias: Option<Vec<F>>,
    pub o_bias: Option<Vec<F>>,
    pub num_heads: usize,
    pub num_kv_heads: usize,
    pub head_dim: usize,
    pub rotary_ndims: usize,
    /// For each head, the key head that it looks at.
    pub head_to_kv_head: Vec<usize>,
    pub hidden_size: usize,
    pub q_dim: usize,
    pub kv_dim: usize,
    pub rms_norm_eps: F,
    /// Whether the block knows positions at all.
    pub use_rope: bool,
    /// The scale of the scores, where it is not that of the head's size.
    pub attn_scale: Option<F>,
    /// Whether one is added to every weight of the norms of queries and keys.
    pub use_gemma_qk_norm: bool,
    /// Whether the query projection gives a gate for each head, too.
    pub has_output_gate: bool,
    /// Whether queries are wanted in sixteen bits, where the machine can use them.
    pub use_q_bf16: bool,
}

/// What the first phase of a prefill hands to the second.
pub struct PrefillPhaseAOutput<F> {
    pub q: Vec<F>,
    pub k: Vec<F>,
    pub v: Vec<F>,
    pub gate: Vec<F>,
    pub seq_len: usize,
}

impl<F, W> GenericAttention<F, W> {
    /// How the block is put together.
    pub open spec fn spec_shape(self) -> AttentionShape {
        AttentionShape {
            has_output_gate: self.has_output_gate,
            q_bias: self.q_bias is Some,
            k_bias: self.k_bias is Some,
            v_bias: self.v_bias is Some,
            o_bias: self.o_bias is Some,
            q_norm: self.q_norm is Some,
            k_norm: self.k_norm is Some,
            use_rope: self.use_rope,
            use_q_bf16: self.use_q_bf16,
        }
    }

    /// How the block is put together.
    pub fn shape(&self) -> (shape: AttentionShape)
        ensures
            shape == self.spec_shape(),
    {
        AttentionShape {
            has_output_gate: self.has_output_gate,
            q_bias: self.q_bias.is_some(),
            k_bias: self.k_bias.is_some(),
            v_bias: self.v_bias.is_some(),
            o_bias: self.o_bias.is_some(),
            q_norm: self.q_norm.is_some(),
            k_norm: self.k_norm.is_some(),
            use_rope: self.use_rope,
            use_q_bf16: self.use_q_bf16,
        }
    }

    /// The steps on one token.
    pub fn forward_decode(&self, avx512bf16: bool) -> (steps: Vec<AttentionStep>)
        ensures
            steps@ == self.spec_shape().decode_steps(avx512bf16),
    {
        self.shape().forward_decode(avx512bf16)
    }

    /// The steps on a run of tokens.
    pub fn forward_prefill(&self, avx512bf16: bool) -> (steps: Vec<AttentionStep>)
        ensures
            steps@ == self.spec_shape().prefill_steps(avx512bf16),
    {
        self.shape().forward_prefill(avx512bf16)
    }

    /// The steps on a run of tokens that need no keys and values of other tokens.
    pub fn forward_prefill_phase_a(&self) -> (steps: Vec<AttentionStep>)
        ensures
            steps@ == self.spec_shape().phase_a_steps(),
    {
        self.shape().forward_prefill_phase_a()
    }

    /// The remaining steps on a run of tokens.
    pub fn forward_prefill_phase_b(&self, avx512bf16: bool) -> (steps: Vec<AttentionStep>)
        ensures
            steps@ == self.spec_shape().phase_b_steps(avx512bf16),
    {
        self.shape().forward_prefill_phase_b(avx512bf16)
    }

    /// How wide the query projection is for one token: twice as wide where it gives the
    /// gates, too.
    pub fn projection_width(&self) -> (n: usize)
        requires
            2 * self.q_dim <= usize::MAX,
        ensures
            n == (if self.has_output_gate {
                2 * self.q_dim
            } else {
                self.q_dim as int
            }),
    {
        if self.has_output_gate {
            2 * self.q_dim
        } else {
            self.q_dim
        }
    }

    /// How the heads of one token are run.
    pub fn decode_heads(&self, cached_len: usize, pool_workers: usize) -> (plan: DecodeHeads)
        ensures
            plan == (if pool_workers > 1 && self.num_heads >= 8 && cached_len >= 256 {
                DecodeHeads::Divided(min_of(pool_workers as int, self.num_heads as int) as usize)
            } else {
                DecodeHeads::InTurn
            }),
    {
        decode_heads(self.num_heads, cached_len, pool_workers)
    }

    /// The kernel that runs a prefill of the block.
    pub fn prefill_kernel(
        &self,
        choice: &KernelChoice,
        quant: KvQuantType,
        has_narrow_queries: bool,
    ) -> (kernel: PrefillKernel)
        requires
            self.num_kv_heads > 0,
        ensures
            kernel == choice.spec_prefill_kernel(
                quant,
                self.num_heads as int / self.num_kv_heads as int,
                has_narrow_queries,
            ),
    {
        choice.prefill_kernel(quant, self.num_heads / self.num_kv_heads, has_narrow_queries)
    }
}

/// The shape of a block tells which of its parts it has.
pub proof fn law_shape_tells_the_parts<F, W>(block: GenericAttention<F, W>)
    ensures
        block.spec_shape().has_output_gate == block.has_output_gate,
        block.spec_shape().q_bias <==> block.q_bias is Some,
        block.spec_shape().k_bias <==> block.k_bias is Some,
        block.spec_shape().v_bias <==> block.v_bias is Some,
        block.spec_shape().o_bias <==> block.o_bias is Some,
        block.spec_shape().q_norm <==> block.q_norm is Some,
        block.spec_shape().k_norm <==> block.k_norm is Some,
        block.spec_shape().use_rope == block.use_rope,
        block.spec_shape().use_q_bf16 == block.use_q_bf16,
{
}

} // verus!
