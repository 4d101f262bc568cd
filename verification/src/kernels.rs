//! What the numeric kernels decide before they compute: which instructions to use,
//! whether their arguments fit together, and how rows are divided among workers.

use vstd::prelude::*;

use crate::arith::{ceil_div, div_ceil_usize, min_of};

verus! {

// ---------------------------------------------------------------------------
// Processor features
// ---------------------------------------------------------------------------

/// What is known of one processor feature.
#[derive(Clone, Copy, Debug, PartialEq, Eq, Structural)]
pub enum Detection {
    Unknown,
    Present,
    Absent,
}

/// What is known of the processor. A feature is looked up once and then remembered.
#[derive(Clone, Copy, Debug, PartialEq, Eq, Structural)]
pub struct CpuFeatures {
    pub avx512f: Detection,
    pub avx512bf16: Detection,
    pub avx2_fma: Detection,
}

/// Whether a feature counts as there, when the processor, if asked now, answers
/// `probed`.
pub open spec fn is_there(known: Detection, probed: bool) -> bool {
    match known {
        Detection::Unknown => probed,
        Detection::Present => true,
        Detection::Absent => false,
    }
}

/// What is known after asking: the first answer.
pub open spec fn remembered(known: Detection, probed: bool) -> Detection {
    if is_there(known, probed) {
        Detection::Present
    } else {
        Detection::Absent
    }
}

fn settle(known: Detection, probed: bool) -> (result: (bool, Detection))
    ensures
        result.0 == is_there(known, probed),
        result.1 == remembered(known, probed),
{
    match known {
        Detection::Unknown => if probed {
            (true, Detection::Present)
        } else {
            (false, Detection::Absent)
        },
        Detection::Present => (true, Detection::Present),
        Detection::Absent => (false, Detection::Absent),
    }
}

impl CpuFeatures {
    /// Nothing is known yet.
    pub fn new() -> (features: Self)
        ensures
            features.avx512f is Unknown,
            features.avx512bf16 is Unknown,
            features.avx2_fma is Unknown,
    {
        CpuFeatures {
            avx512f: Detection::Unknown,
            avx512bf16: Detection::Unknown,
            avx2_fma: Detection::Unknown,
        }
    }
}

/// Whether the processor has 512-bit vectors.
pub fn has_avx512f(features: &mut CpuFeatures, probed: bool) -> (b: bool)
    ensures
        b == is_there(old(features).avx512f, probed),
        *final(features) == (CpuFeatures {
            avx512f: remembered(old(features).avx512f, probed),
            ..*old(features)
        }),
{
    let (there, known) = settle(features.avx512f, probed);
    features.avx512f = known;
    there
}

/// Whether the processor multiplies sixteen-bit numbers in 512-bit vectors.
pub fn has_avx512bf16(features: &mut CpuFeatures, probed: bool) -> (b: bool)
    ensures
        b == is_there(old(features).avx512bf16, probed),
        *final(features) == (CpuFeatures {
            avx512bf16: remembered(old(features).avx512bf16, probed),
            ..*old(features)
        }),
{
    let (there, known) = settle(features.avx512bf16, probed);
    features.avx512bf16 = known;
    there
}

/// Whether the processor has 256-bit vectors and fused multiply-add.
pub fn has_avx2_fma(features: &mut CpuFeatures, probed: bool) -> (b: bool)
    ensures
        b == is_there(old(features).avx2_fma, probed),
        *final(features) == (CpuFeatures {
            avx2_fma: remembered(old(features).avx2_fma, probed),
            ..*old(features)
        }),
{
    let (there, known) = settle(features.avx2_fma, probed);
    features.avx2_fma = known;
    there
}

/// Once a feature was looked up, later answers of the processor change nothing.
pub proof fn law_first_detection_stays(known: Detection, first: bool, later: bool)
    ensures
        is_there(remembered(known, first), later) == is_there(known, first),
        remembered(remembered(known, first), later) == remembered(known, first),
{
}

/// The instructions that a normalisation uses.
#[derive(Clone, Copy, Debug, PartialEq, Eq, Structural)]
pub enum NormKernel {
    Avx512,
    Avx2,
    Scalar,
}

/// The instructions for normalising `len` numbers: the widest vectors that the
/// processor has and that the numbers fill at least four times.
pub fn norm_kernel(avx512f: bool, avx2_fma: bool, len: usize) -> (kernel: NormKernel)
    ensures
        kernel == (if avx512f && len >= 64 {
            NormKernel::Avx512
        } else if avx2_fma && len >= 32 {
            NormKernel::Avx2
        } else {
            NormKernel::Scalar
        }),
{
    if avx512f && len >= 64 {
        NormKernel::Avx512
    } else if avx2_fma && len >= 32 {
        NormKernel::Avx2
    } else {
        NormKernel::Scalar
    }
}

// ---------------------------------------------------------------------------
// Rotary embedding
// ---------------------------------------------------------------------------

/// Why a rotation was refused.
#[derive(Clone, Copy, Debug, PartialEq, Eq, Structural)]
pub enum RopeError {
    /// The window's size is no machine number.
    SizeOverflow,
    /// The tables are shorter than the window.
    CacheTooSmall { need: usize, cos: usize, sin: usize },
    /// The vector is shorter than its heads.
    BufferTooSmall { need: usize, got: usize },
    /// The tables of one position are too short.
    SliceTooSmall { need: usize, cos: usize, sin: usize },
}

/// The table entries that positions up to the end of a window need.
pub open spec fn rope_window(seq_len: int, rotary_ndims: int, start_pos: int) -> int {
    (start_pos + seq_len) * (rotary_ndims / 2)
}

/// Checks that the rotation tables reach to the end of a window, and returns how many
/// entries each position has.
pub fn validate_rope_batch_window<F>(
    cos_cache: &[F],
    sin_cache: &[F],
    seq_len: usize,
    rotary_ndims: usize,
    start_pos: usize,
) -> (half: Result<usize, RopeError>)
    ensures
        ({
            let need = rope_window(seq_len as int, rotary_ndims as int, start_pos as int);
            half == (if start_pos + seq_len > usize::MAX || need > usize::MAX {
                Err::<usize, RopeError>(RopeError::SizeOverflow)
            } else if cos_cache@.len() < need || sin_cache@.len() < need {
                Err(
                    RopeError::CacheTooSmall {
                        need: need as usize,
                        cos: cos_cache@.len() as usize,
                        sin: sin_cache@.len() as usize,
                    },
                )
            } else {
                Ok((rotary_ndims / 2) as usize)
            })
        }),
{
    let half_rot: usize = rotary_ndims / 2;
    let end: usize = match start_pos.checked_add(seq_len) {
        Some(end) => end,
        None => {
            return Err(RopeError::SizeOverflow);
        },
    };
    proof {
        assert(end * half_rot >= 0) by (nonlinear_arith);
    }
    let need: usize = match end.checked_mul(half_rot) {
        Some(need) => need,
        None => {
            return Err(RopeError::SizeOverflow);
        },
    };
    if cos_cache.len() < need || sin_cache.len() < need {
        return Err(
            RopeError::CacheTooSmall { need, cos: cos_cache.len(), sin: sin_cache.len() },
        );
    }
    Ok(half_rot)
}

/// Checks that a vector holds its heads and that the tables of its position are long
/// enough, and returns how many pairs of each head are rotated.
pub fn check_rope_single<F>(
    qk: &[F],
    cos: &[F],
    sin: &[F],
    num_heads: usize,
    head_dim: usize,
    rotary_ndims: usize,
) -> (half: Result<usize, RopeError>)
    requires
        num_heads * head_dim <= usize::MAX,
    ensures
        half == (if qk@.len() < num_heads * head_dim {
            Err::<usize, RopeError>(
                RopeError::BufferTooSmall {
                    need: (num_heads * head_dim) as usize,
                    got: qk@.len() as usize,
                },
            )
        } else if cos@.len() < rotary_ndims / 2 || sin@.len() < rotary_ndims / 2 {
            Err(
                RopeError::SliceTooSmall {
                    need: (rotary_ndims / 2) as usize,
                    cos: cos@.len() as usize,
                    sin: sin@.len() as usize,
                },
            )
        } else {
            Ok((rotary_ndims / 2) as usize)
        }),
{
    proof {
        assert(num_heads * head_dim >= 0) by (nonlinear_arith);
    }
    let need: usize = num_heads * head_dim;
    if qk.len() < need {
        return Err(RopeError::BufferTooSmall { need, got: qk.len() });
    }
    let half_rot: usize = rotary_ndims / 2;
    if cos.len() < half_rot || sin.len() < half_rot {
        return Err(RopeError::SliceTooSmall { need: half_rot, cos: cos.len(), sin: sin.len() });
    }
    Ok(half_rot)
}

/// A window that was accepted has, for each of its positions, entries within the
/// tables.
pub proof fn law_accepted_window_is_in_bounds(
    pos: int,
    seq_len: int,
    rotary_ndims: int,
    start_pos: int,
    table_len: int,
)
    requires
        0 <= pos < seq_len,
        start_pos >= 0,
        rotary_ndims >= 0,
        rope_window(seq_len, rotary_ndims, start_pos) <= table_len,
    ensures
        0 <= (start_pos + pos) * (rotary_ndims / 2),
        (start_pos + pos) * (rotary_ndims / 2) + rotary_ndims / 2 <= table_len,
{
    let half = rotary_ndims / 2;
    assert((start_pos + pos) * half + half <= (start_pos + seq_len) * half && 0 <= (start_pos + pos)
        * half) by (nonlinear_arith)
        requires
            0 <= pos < seq_len,
            start_pos >= 0,
            half >= 0,
    ;
}

// ---------------------------------------------------------------------------
// Eight-bit inputs
// ---------------------------------------------------------------------------

/// An input vector in eight-bit codes: the codes, the scale of each group of codes, and
/// the sum of each group.
pub struct PreQuantizedInput<F> {
    pub i8_data: Vec<i8>,
    pub group_scales: Vec<F>,
    pub col_sums: Vec<i64>,
}

/// The sum of codes.
pub open spec fn code_sum(codes: Seq<i8>) -> int
    decreases codes.len(),
{
    if codes.len() == 0 {
        0
    } else {
        code_sum(codes.drop_last()) + codes.last()
    }
}

/// The codes of group `g`.
pub open spec fn group_of(codes: Seq<i8>, group_size: int, g: int) -> Seq<i8> {
    codes.subrange(
        g * group_size,
        min_of((g + 1) * group_size, codes.len() as int),
    )
}

/// The first and last place (the latter excluded) of group `g` among `dim` numbers.
pub fn group_bounds(dim: usize, group_size: usize, g: usize) -> (bounds: (usize, usize))
    requires
        group_size > 0,
        g < ceil_div(dim as int, group_size as int),
    ensures
        bounds.0 == g * group_size,
        bounds.1 == min_of((g + 1) * group_size, dim as int),
        bounds.0 < bounds.1 <= dim,
{
    proof {
        lemma_group_starts_inside(dim as int, group_size as int, g as int);
    }
    let start: usize = g * group_size;
    let end: usize = if dim - start < group_size {
        dim
    } else {
        start + group_size
    };
    (start, end)
}

proof fn lemma_group_starts_inside(dim: int, group_size: int, g: int)
    requires
        dim >= 0,
        group_size > 0,
        0 <= g < ceil_div(dim, group_size),
    ensures
        0 <= g * group_size < dim,
        (g + 1) * group_size == g * group_size + group_size,
{
    vstd::arithmetic::div_mod::lemma_fundamental_div_mod(dim, group_size);
    let q = dim / group_size;
    assert((g + 1) * group_size == g * group_size + group_size && 0 <= g * group_size)
        by (nonlinear_arith)
        requires
            g >= 0,
            group_size > 0,
    ;
    if dim % group_size == 0 {
        assert(g * group_size + group_size <= group_size * q) by (nonlinear_arith)
            requires
                g + 1 <= q,
                group_size > 0,
        ;
    } else {
        assert(g * group_size <= group_size * q) by (nonlinear_arith)
            requires
                g <= q,
                group_size > 0,
        ;
    }
}

/// Sums the codes of each group.
pub fn group_col_sums(codes: &[i8], group_size: usize) -> (sums: Vec<i64>)
    requires
        group_size > 0,
        128 * min_of(group_size as int, codes@.len() as int) <= i64::MAX,
    ensures
        sums@.len() == ceil_div(codes@.len() as int, group_size as int),
        forall|g: int|
            0 <= g < sums@.len() ==> #[trigger] sums@[g] == code_sum(
                group_of(codes@, group_size as int, g),
            ),
{
    let dim: usize = codes.len();
    let groups: usize = div_ceil_usize(dim, group_size);
    let mut sums: Vec<i64> = Vec::new();
    let mut g: usize = 0;
    while g < groups
        invariant
            g <= groups,
            group_size > 0,
            dim == codes@.len(),
            128 * min_of(group_size as int, dim as int) <= i64::MAX,
            groups == ceil_div(dim as int, group_size as int),
            sums@.len() == g,
            forall|j: int|
                0 <= j < g ==> #[trigger] sums@[j] == code_sum(
                    group_of(codes@, group_size as int, j),
                ),
        decreases groups - g,
    {
        let (start, end) = group_bounds(dim, group_size, g);
        let ghost group = group_of(codes@, group_size as int, g as int);
        let mut sum: i64 = 0;
        let mut i: usize = start;
        proof {
            lemma_group_starts_inside(dim as int, group_size as int, g as int);
            assert(group.take(0) =~= Seq::<i8>::empty());
        }
        while i < end
            invariant
                start <= i <= end <= dim == codes@.len(),
                128 * (end - start) <= i64::MAX,
                group == codes@.subrange(start as int, end as int),
                sum == code_sum(group.take(i - start)),
                -128 * (i - start) <= sum <= 127 * (i - start),
            decreases end - i,
        {
            proof {
                assert(group.take(i + 1 - start).drop_last() =~= group.take(i - start));
            }
            sum = sum + codes[i] as i64;
            i = i + 1;
        }
        proof {
            assert(group.take(i - start) =~= group);
        }
        sums.push(sum);
        g = g + 1;
    }
    sums
}

impl<F> PreQuantizedInput<F> {
    /// Puts codes and scales together and sums the groups.
    pub fn from_codes(i8_data: Vec<i8>, group_scales: Vec<F>, group_size: usize) -> (input: Self)
        requires
            group_size > 0,
            128 * min_of(group_size as int, i8_data@.len() as int) <= i64::MAX,
        ensures
            input.i8_data == i8_data,
            input.group_scales == group_scales,
            input.col_sums@.len() == ceil_div(i8_data@.len() as int, group_size as int),
            forall|g: int|
                0 <= g < input.col_sums@.len() ==> #[trigger] input.col_sums@[g] == code_sum(
                    group_of(i8_data@, group_size as int, g),
                ),
    {
        let col_sums = group_col_sums(i8_data.as_slice(), group_size);
        PreQuantizedInput { i8_data, group_scales, col_sums }
    }
}

// ---------------------------------------------------------------------------
// Row tiles
// ---------------------------------------------------------------------------

/// How many rows of a weight matrix one unit of work covers.
pub const TILE_ROWS: usize = 64;

/// From how many multiplications on a product is divided among workers.
pub const PAR_THRESHOLD: usize = 65536;

/// Whether a matrix is large enough to divide its product with a vector.
pub fn divides_matvec(n: usize, k: usize) -> (b: bool)
    requires
        n * k <= usize::MAX,
    ensures
        b == (n * k >= 65536),
{
    proof {
        assert(n * k >= 0) by (nonlinear_arith);
    }
    n * k >= PAR_THRESHOLD
}

/// Whether the product of an `m`-row matrix with an `n` by `k` matrix is large enough
/// to divide.
pub fn divides_matmul(m: usize, n: usize, k: usize) -> (b: bool)
    requires
        m * n <= usize::MAX,
        m * n * k <= usize::MAX,
    ensures
        b == (m * n * k >= 65536),
{
    proof {
        assert(m * n >= 0) by (nonlinear_arith);
        assert(m * n * k >= 0) by (nonlinear_arith)
            requires
                m * n >= 0,
        ;
    }
    m * n * k >= PAR_THRESHOLD
}

/// The number of tiles of an `n`-row matrix.
pub fn tile_count(n: usize) -> (tiles: usize)
    ensures
        tiles == ceil_div(n as int, 64),
{
    div_ceil_usize(n, TILE_ROWS)
}

/// The first and last row (the latter excluded) of a tile.
pub fn tile_rows(tile: usize, n: usize) -> (rows: (usize, usize))
    requires
        tile < ceil_div(n as int, 64),
    ensures
        rows.0 == tile * 64,
        rows.1 == min_of(tile * 64 + 64, n as int),
        rows.0 < rows.1 <= n,
{
    let start: usize = tile * TILE_ROWS;
    let end: usize = if n - start < TILE_ROWS {
        n
    } else {
        start + TILE_ROWS
    };
    (start, end)
}

/// Every row belongs to exactly one tile, so workers that take different tiles never
/// write the same output.
pub proof fn law_tiles_cover_each_row_once(row: int, n: int)
    requires
        0 <= row < n,
    ensures
        0 <= row / 64 < ceil_div(n, 64),
        (row / 64) * 64 <= row < min_of((row / 64) * 64 + 64, n),
        forall|tile: int|
            0 <= tile < ceil_div(n, 64) && #[trigger] (tile * 64) <= row < min_of(tile * 64 + 64, n)
                ==> tile == row / 64,
{
}

/// A feature is there if it was found, is not if it was not, and goes by the probe only
/// before either; after asking, it is known.
pub proof fn law_probing_settles(known: Detection, probed: bool)
    ensures
        known is Present ==> is_there(known, probed),
        known is Absent ==> !is_there(known, probed),
        known is Unknown ==> is_there(known, probed) == probed,
        remembered(known, probed) is Present <==> is_there(known, probed),
        remembered(known, probed) is Absent <==> !is_there(known, probed),
{
}

/// The rotations of one more position take one more stretch of half the rotated
/// elements; no positions take none.
pub proof fn law_rotations_lie_position_by_position(
    seq_len: int,
    rotary_ndims: int,
    start_pos: int,
)
    ensures
        rope_window(0, rotary_ndims, 0) == 0,
        rope_window(seq_len + 1, rotary_ndims, start_pos) == rope_window(
            seq_len,
            rotary_ndims,
            start_pos,
        ) + rotary_ndims / 2,
        rope_window(seq_len, rotary_ndims, start_pos + 1) == rope_window(
            seq_len + 1,
            rotary_ndims,
            start_pos,
        ),
{
    let half = rotary_ndims / 2;
    assert((start_pos + (seq_len + 1)) * half == (start_pos + seq_len) * half + half)
        by (nonlinear_arith);
    assert(0 * half == 0) by (nonlinear_arith);
}

/// A sum of codes adds up, whatever way the codes are parted.
pub proof fn law_code_sums_add_up(a: Seq<i8>, b: Seq<i8>, code: i8)
    ensures
        code_sum(Seq::<i8>::empty()) == 0,
        code_sum(a.push(code)) == code_sum(a) + code,
        code_sum(a + b) == code_sum(a) + code_sum(b),
    decreases b.len(),
{
    assert(a.push(code).drop_last() =~= a);
    if b.len() == 0 {
        assert(a + b =~= a);
    } else {
        assert((a + b).drop_last() =~= a + b.drop_last());
        law_code_sums_add_up(a, b.drop_last(), code);
    }
}

/// The groups follow each other from the first code on: a group has the codes behind
/// those of the groups before it, as many as a group holds or as are left.
pub proof fn law_groups_follow_each_other(codes: Seq<i8>, group_size: int, g: int, i: int)
    requires
        group_size > 0,
        0 <= g,
        g * group_size < codes.len(),
    ensures
        group_of(codes, group_size, g).len() == group_size || g * group_size + group_of(
            codes,
            group_size,
            g,
        ).len() == codes.len(),
        0 < group_of(codes, group_size, g).len() <= group_size,
        0 <= i < group_of(codes, group_size, g).len() ==> group_of(codes, group_size, g)[i]
            == codes[g * group_size + i],
        code_sum(codes.take(g * group_size)) + code_sum(group_of(codes, group_size, g)) == code_sum(
            codes.take(g * group_size + group_of(codes, group_size, g).len()),
        ),
{
    assert((g + 1) * group_size == g * group_size + group_size && g * group_size >= 0)
        by (nonlinear_arith)
        requires
            g >= 0,
            group_size > 0,
    ;
    let group = group_of(codes, group_size, g);
    let before = codes.take(g * group_size);
    law_code_sums_add_up(before, group, 0);
    assert(before + group =~= codes.take(g * group_size + group.len()));
}

} // verus!
