//! Decoder layers: the state of convolution and recurrent layers, and the order of a
//! layer's steps.

use vstd::prelude::*;

use crate::arith::{max_of, max_usize, min_of, min_usize};
use crate::generic_attention::{GenericAttention, PrefillPhaseAOutput};
use crate::generic_moe::GenericFFN;
use crate::kv_cache::filled;

verus! {

// ---------------------------------------------------------------------------
// Columns of a causal convolution
// ---------------------------------------------------------------------------
//
// A convolution layer keeps, for each channel, its last `width` inputs: input `j` of
// channel `h` stands at `h * width + j`, the newest last.

/// The state after each of the first channels took one more input.
pub open spec fn rolled<F>(state: Seq<F>, input: Seq<F>, width: int) -> Seq<F> {
    Seq::new(
        state.len(),
        |i: int|
            if i / width < input.len() {
                if i % width < width - 1 {
                    state[i + 1]
                } else {
                    input[i / width]
                }
            } else {
                state[i]
            },
    )
}

/// Gives every channel one more input: its oldest one falls out.
pub fn roll_state<F: Copy>(state: &mut Vec<F>, input: &[F], width: usize)
    requires
        width > 0,
        input@.len() * width <= old(state)@.len(),
    ensures
        final(state)@ == rolled(old(state)@, input@, width as int),
{
    let ghost before = state@;
    let ghost after = rolled(before, input@, width as int);
    let len: usize = state.len();
    let channels: usize = input.len();
    proof {
        assert(0 * width == 0) by (nonlinear_arith);
    }
    let mut h: usize = 0;
    while h < channels
        invariant
            h <= channels == input@.len(),
            width > 0,
            channels * width <= len,
            state@.len() == before.len() == len,
            after == rolled(before, input@, width as int),
            forall|i: int| 0 <= i < h * width ==> #[trigger] state@[i] == after[i],
            forall|i: int| h * width <= i < len ==> #[trigger] state@[i] == before[i],
        decreases channels - h,
    {
        proof {
            assert((h + 1) * width == h * width + width && (h + 1) * width <= channels * width && 0
                <= h * width) by (nonlinear_arith)
                requires
                    0 <= h < channels,
                    width > 0,
            ;
        }
        let base: usize = h * width;
        let mut j: usize = 0;
        while j < width - 1
            invariant
                j <= width - 1,
                width > 0,
                h < channels == input@.len(),
                base == h * width,
                base + width <= len,
                state@.len() == before.len() == len,
                after == rolled(before, input@, width as int),
                forall|i: int| 0 <= i < base + j ==> #[trigger] state@[i] == after[i],
                forall|i: int| base + j <= i < len ==> #[trigger] state@[i] == before[i],
            decreases width - 1 - j,
        {
            proof {
                lemma_place(h as int, width as int, j as int);
                assert(after[base + j] == before[base + j + 1]);
            }
            let x = state[base + j + 1];
            state.set(base + j, x);
            j = j + 1;
        }
        proof {
            lemma_place(h as int, width as int, width - 1);
            assert(after[base + width - 1] == input@[h as int]);
        }
        let x = input[h];
        state.set(base + width - 1, x);
        h = h + 1;
    }
    proof {
        assert forall|i: int| channels * width <= i < len implies #[trigger] after[i]
            == before[i] by {
            assert(i / width as int >= channels) by {
                vstd::arithmetic::div_mod::lemma_div_is_ordered(
                    channels * width,
                    i,
                    width as int,
                );
                vstd::arithmetic::div_mod::lemma_div_by_multiple(channels as int, width as int);
            }
        }
        assert(state@ =~= after);
    }
}

/// Input `j` of channel `h` is found at its place.
proof fn lemma_place(h: int, width: int, j: int)
    requires
        0 <= j < width,
        0 <= h,
    ensures
        (h * width + j) / width == h,
        (h * width + j) % width == j,
{
    vstd::arithmetic::div_mod::lemma_fundamental_div_mod_converse(h * width + j, width, h, j);
}

/// The state behind the first `count` rows of inputs: each channel's last `width` of
/// them, with `zero` before where there are fewer.
pub open spec fn state_after<F>(
    rows: Seq<F>,
    count: int,
    channels: int,
    width: int,
    zero: F,
) -> Seq<F> {
    Seq::new(
        (channels * width) as nat,
        |i: int|
            {
                let t = count - width + i % width;
                if t >= 0 {
                    rows[t * channels + i / width]
                } else {
                    zero
                }
            },
    )
}

/// Sets the state behind a prefill of `seq_len` rows.
pub fn prefill_state<F: Copy>(
    state: &mut Vec<F>,
    rows: &[F],
    seq_len: usize,
    channels: usize,
    width: usize,
    zero: F,
)
    requires
        width > 0,
        old(state)@.len() == channels * width,
        seq_len * channels <= rows@.len(),
    ensures
        final(state)@ == state_after(
            rows@,
            seq_len as int,
            channels as int,
            width as int,
            zero,
        ),
{
    let ghost after = state_after(rows@, seq_len as int, channels as int, width as int, zero);
    let len: usize = state.len();
    let total: usize = rows.len();
    proof {
        assert(0 * width == 0) by (nonlinear_arith);
    }
    let mut h: usize = 0;
    while h < channels
        invariant
            h <= channels,
            width > 0,
            len == channels * width,
            seq_len * channels <= total == rows@.len(),
            state@.len() == after.len() == len,
            after == state_after(
                rows@,
                seq_len as int,
                channels as int,
                width as int,
                zero,
            ),
            forall|i: int| 0 <= i < h * width ==> #[trigger] state@[i] == after[i],
        decreases channels - h,
    {
        proof {
            assert((h + 1) * width == h * width + width && (h + 1) * width <= channels * width && 0
                <= h * width) by (nonlinear_arith)
                requires
                    0 <= h < channels,
                    width > 0,
            ;
        }
        let base: usize = h * width;
        let mut j: usize = 0;
        while j < width
            invariant
                j <= width,
                width > 0,
                h < channels,
                base == h * width,
                base + width <= len,
                seq_len * channels <= total == rows@.len(),
                state@.len() == after.len() == len,
                after == state_after(
                    rows@,
                    seq_len as int,
                    channels as int,
                    width as int,
                    zero,
                ),
                forall|i: int| 0 <= i < base + j ==> #[trigger] state@[i] == after[i],
            decreases width - j,
        {
            proof {
                lemma_place(h as int, width as int, j as int);
            }
            let missing: usize = width - j;
            if seq_len >= missing {
                let t: usize = seq_len - missing;
                proof {
                    assert(t * channels + channels <= seq_len * channels && 0 <= t * channels)
                        by (nonlinear_arith)
                        requires
                            0 <= t < seq_len,
                            channels >= 0,
                    ;
                }
                let x = rows[t * channels + h];
                state.set(base + j, x);
            } else {
                state.set(base + j, zero);
            }
            j = j + 1;
        }
        h = h + 1;
    }
    proof {
        assert(state@ =~= after);
    }
}

/// Row `t` of the inputs.
pub open spec fn input_row<F>(rows: Seq<F>, t: int, channels: int) -> Seq<F> {
    rows.subrange(t * channels, t * channels + channels)
}

/// A new state is one behind no rows.
pub proof fn law_new_state_is_behind_nothing<F>(
    rows: Seq<F>,
    channels: int,
    width: int,
    zero: F,
)
    requires
        width > 0,
        channels >= 0,
    ensures
        state_after(rows, 0, channels, width, zero) == filled(channels * width, zero),
{
    let s = state_after(rows, 0, channels, width, zero);
    assert forall|i: int| 0 <= i < s.len() implies s[i] == zero by {
        vstd::arithmetic::div_mod::lemma_mod_bound(i, width);
    }
    assert(s =~= filled(channels * width, zero));
}

/// Prefill and decode leave the same state: taking one more row is one more roll.
/// Decoding can therefore go on where a prefill ended, and a prefill is as good as
/// decoding its rows one by one.
pub proof fn law_prefill_state_is_rolled<F>(
    rows: Seq<F>,
    t: int,
    channels: int,
    width: int,
    zero: F,
)
    requires
        width > 0,
        channels >= 0,
        0 <= t,
        (t + 1) * channels <= rows.len(),
    ensures
        rolled(
            state_after(rows, t, channels, width, zero),
            input_row(rows, t, channels),
            width,
        ) == state_after(rows, t + 1, channels, width, zero),
{
    let before = state_after(rows, t, channels, width, zero);
    let input = input_row(rows, t, channels);
    let after = state_after(rows, t + 1, channels, width, zero);
    assert((t + 1) * channels == t * channels + channels && t * channels >= 0) by (nonlinear_arith)
        requires
            t >= 0,
            channels >= 0,
    ;
    assert forall|i: int| 0 <= i < after.len() implies rolled(before, input, width)[i]
        == after[i] by {
        let h = i / width;
        let j = i % width;
        vstd::arithmetic::div_mod::lemma_fundamental_div_mod(i, width);
        vstd::arithmetic::div_mod::lemma_div_pos_is_pos(i, width);
        assert(h < channels) by (nonlinear_arith)
            requires
                i == width * h + j,
                0 <= j < width,
                0 <= i < channels * width,
        ;
        assert(width * h == h * width) by (nonlinear_arith);
        if j < width - 1 {
            lemma_place(h, width, j + 1);
            assert(i + 1 == h * width + (j + 1));
            assert((h + 1) * width <= channels * width) by (nonlinear_arith)
                requires
                    h + 1 <= channels,
                    width > 0,
            ;
            assert((h + 1) * width == h * width + width) by (nonlinear_arith);
            assert(rolled(before, input, width)[i] == before[i + 1]);
        } else {
            assert(rolled(before, input, width)[i] == input[h]);
            assert(input[h] == rows[t * channels + h]);
        }
    }
    assert(rolled(before, input, width) =~= after);
}

/// The row that weighs in at tap `tap` of the output of row `t`, where there is one.
pub open spec fn source_row(t: int, tap: int, width: int) -> Option<int> {
    let s = t - (width - 1) + tap;
    if s >= 0 {
        Some(s)
    } else {
        None
    }
}

/// The row that weighs in at a tap of the output of row `t`.
pub fn conv_source(t: usize, tap: usize, width: usize) -> (row: Option<usize>)
    requires
        tap < width,
        t + tap <= usize::MAX,
    ensures
        match source_row(t as int, tap as int, width as int) {
            Some(s) => row == Some(s as usize),
            None => row is None,
        },
        row matches Some(s) ==> s <= t,
        row is Some <==> t + tap >= width - 1,
        row matches Some(s) ==> s + (width - 1) == t + tap,
{
    if t + tap >= width - 1 {
        Some(t + tap - (width - 1))
    } else {
        None
    }
}

/// The output of a row is the same in prefill and in decode: behind row `t`, the state
/// holds at every tap what prefill reads for row `t`.
pub proof fn law_taps_see_the_same_rows<F>(
    rows: Seq<F>,
    t: int,
    channels: int,
    width: int,
    zero: F,
    h: int,
    tap: int,
)
    requires
        0 <= h < channels,
        0 <= tap < width,
        0 <= t,
    ensures
        state_after(rows, t + 1, channels, width, zero)[h * width + tap] == match source_row(
            t,
            tap,
            width,
        ) {
            Some(s) => rows[s * channels + h],
            None => zero,
        },
{
    lemma_place(h, width, tap);
    assert(0 <= h * width + tap < channels * width) by (nonlinear_arith)
        requires
            0 <= h < channels,
            0 <= tap < width,
    ;
}

/// Where the three parts of row `t` of a convolution's fused projection start: its input
/// gates, its output gates, and its input.
pub fn projection_parts(t: usize, hidden_size: usize) -> (starts: (usize, usize, usize))
    requires
        (t + 1) * (3 * hidden_size) <= usize::MAX,
    ensures
        starts.0 == t * (3 * hidden_size),
        starts.1 == t * (3 * hidden_size) + hidden_size,
        starts.2 == t * (3 * hidden_size) + 2 * hidden_size,
{
    proof {
        assert((t + 1) * (3 * hidden_size) == t * (3 * hidden_size) + 3 * hidden_size && 0 <= t * (3
            * hidden_size)) by (nonlinear_arith)
            requires
                t >= 0,
                hidden_size >= 0,
        ;
    }
    let row: usize = t * (3 * hidden_size);
    (row, row + hidden_size, row + 2 * hidden_size)
}

/// Behind one more row, every channel's columns move up by one, the row's number comes
/// last, and the oldest is gone. Channels that the row does not reach stay.
pub proof fn law_rolling_moves_columns_up<F>(
    state: Seq<F>,
    input: Seq<F>,
    width: int,
    h: int,
    k: int,
)
    requires
        width > 0,
        0 <= h,
        0 <= k < width,
        h * width + k < state.len(),
        input.len() * width <= state.len(),
    ensures
        rolled(state, input, width).len() == state.len(),
        h < input.len() && k < width - 1 ==> rolled(state, input, width)[h * width + k] == state[h
            * width + k + 1],
        h < input.len() && k == width - 1 ==> rolled(state, input, width)[h * width + k]
            == input[h],
        h >= input.len() ==> rolled(state, input, width)[h * width + k] == state[h * width + k],
{
    assert((h + 1) * width == h * width + width && 0 <= h * width) by (nonlinear_arith)
        requires
            h >= 0,
            width > 0,
    ;
    vstd::arithmetic::div_mod::lemma_fundamental_div_mod_converse(h * width + k, width, h, k);
}

/// Behind `count` rows, column `k` of a channel is the channel's number in the row that
/// many places before the end, or zero where there is no such row.
pub proof fn law_state_holds_the_last_rows<F>(
    rows: Seq<F>,
    count: int,
    channels: int,
    width: int,
    zero: F,
    h: int,
    k: int,
)
    requires
        0 <= h < channels,
        0 <= k < width,
    ensures
        state_after(rows, count, channels, width, zero).len() == channels * width,
        count - width + k >= 0 ==> state_after(rows, count, channels, width, zero)[h * width + k]
            == rows[(count - width + k) * channels + h],
        count - width + k < 0 ==> state_after(rows, count, channels, width, zero)[h * width + k]
            == zero,
{
    assert(0 <= h * width && h * width + width <= channels * width) by (nonlinear_arith)
        requires
            0 <= h < channels,
            width > 0,
    ;
    vstd::arithmetic::div_mod::lemma_fundamental_div_mod_converse(h * width + k, width, h, k);
}

/// The last tap reads the row itself, the one before it the row before, and so on; no tap
/// reads a later row, and taps from before the first row read nothing.
pub proof fn law_taps_look_back(t: int, tap: int, width: int)
    requires
        0 <= t,
        0 <= tap < width,
    ensures
        source_row(t, width - 1, width) == Some(t),
        source_row(t, tap, width) is Some <==> t >= width - 1 - tap,
        source_row(t, tap, width) matches Some(s) ==> t - s == width - 1 - tap,
{
}

// ---------------------------------------------------------------------------
// Recurrent layers
// ---------------------------------------------------------------------------

/// The dimensions of a recurrent (DeltaNet) layer.
#[derive(Clone, Copy, Debug, PartialEq, Eq, Structural)]
pub struct DeltaNetShape {
    pub num_k_heads: usize,
    pub num_v_heads: usize,
    pub head_k_dim: usize,
    pub head_v_dim: usize,
    pub conv_kernel_size: usize,
    pub hidden_size: usize,
}

/// What one value head reads and writes.
#[derive(Clone, Copy, Debug, PartialEq, Eq, Structural)]
pub struct HeadWindow {
    /// Where the head's matrix starts in the layer's state.
    pub state_start: usize,
    /// The size of the matrix.
    pub state_len: usize,
    /// Where the head's values, gates and outputs start.
    pub value_start: usize,
    /// Where the queries and keys start that the head shares with its group.
    pub key_start: usize,
}

impl DeltaNetShape {
    /// The width of all keys.
    pub open spec fn spec_key_dim(self) -> int {
        self.num_k_heads * self.head_k_dim
    }

    /// The width of all values.
    pub open spec fn spec_value_dim(self) -> int {
        self.num_v_heads * self.head_v_dim
    }

    /// The number of channels of the convolution: queries, keys and values.
    pub open spec fn spec_conv_dim(self) -> int {
        self.spec_key_dim() * 2 + self.spec_value_dim()
    }

    /// The widths are machine numbers, and so is the size of the state.
    pub open spec fn fits(self) -> bool {
        &&& self.spec_conv_dim() <= usize::MAX
        &&& self.num_v_heads * (self.head_k_dim * self.head_v_dim) <= usize::MAX
    }

    /// Every key head serves the same number of value heads.
    pub open spec fn is_grouped(self) -> bool {
        &&& self.num_k_heads > 0
        &&& self.num_v_heads > 0
        &&& self.num_v_heads as int % self.num_k_heads as int == 0
    }

    proof fn lemma_dims_are_positive(self)
        ensures
            self.spec_key_dim() >= 0,
            self.spec_value_dim() >= 0,
    {
        assert(self.num_k_heads * self.head_k_dim >= 0 && self.num_v_heads * self.head_v_dim >= 0)
            by (nonlinear_arith);
    }

    /// The width of all keys.
    pub fn key_dim(&self) -> (n: usize)
        requires
            self.fits(),
        ensures
            n == self.spec_key_dim(),
            n == self.num_k_heads * self.head_k_dim,
    {
        proof {
            self.lemma_dims_are_positive();
        }
        self.num_k_heads * self.head_k_dim
    }

    /// The width of all values.
    pub fn value_dim(&self) -> (n: usize)
        requires
            self.fits(),
        ensures
            n == self.spec_value_dim(),
            n == self.num_v_heads * self.head_v_dim,
    {
        proof {
            self.lemma_dims_are_positive();
        }
        self.num_v_heads * self.head_v_dim
    }

    /// The number of channels of the convolution.
    pub fn conv_dim(&self) -> (n: usize)
        requires
            self.fits(),
        ensures
            n == self.spec_conv_dim(),
            n == 2 * (self.num_k_heads * self.head_k_dim) + self.num_v_heads * self.head_v_dim,
    {
        proof {
            self.lemma_dims_are_positive();
        }
        self.key_dim() * 2 + self.value_dim()
    }

    /// How many value heads share a key head.
    pub fn heads_per_group(&self) -> (n: usize)
        requires
            self.num_k_heads > 0,
        ensures
            n == self.num_v_heads as int / self.num_k_heads as int,
    {
        self.num_v_heads / self.num_k_heads
    }

    /// The key head that a value head shares.
    pub open spec fn key_head(self, vh: int) -> int {
        vh / (self.num_v_heads as int / self.num_k_heads as int)
    }

    /// What a value head reads and writes.
    pub fn head_window(&self, vh: usize) -> (window: HeadWindow)
        requires
            self.fits(),
            self.is_grouped(),
            vh < self.num_v_heads,
        ensures
            window.state_len == self.head_k_dim * self.head_v_dim,
            window.state_start == vh * (self.head_k_dim * self.head_v_dim),
            window.value_start == vh * self.head_v_dim,
            window.key_start == self.key_head(vh as int) * self.head_k_dim,
    {
        proof {
            law_windows_stay_inside(*self, vh as int);
            self.lemma_dims_are_positive();
            assert(self.head_k_dim * self.head_v_dim >= 0) by (nonlinear_arith);
            assert(1 * (self.head_k_dim * self.head_v_dim) <= self.num_v_heads * (self.head_k_dim
                * self.head_v_dim)) by (nonlinear_arith)
                requires
                    1 <= self.num_v_heads,
                    self.head_k_dim * self.head_v_dim >= 0,
            ;
        }
        let state_len: usize = self.head_k_dim * self.head_v_dim;
        let kh: usize = vh / self.heads_per_group();
        HeadWindow {
            state_start: vh * state_len,
            state_len,
            value_start: vh * self.head_v_dim,
            key_start: kh * self.head_k_dim,
        }
    }

    /// How many workers run the value heads.
    pub fn recurrence_workers(&self, pool_workers: usize) -> (workers: usize)
        ensures
            workers == max_of(min_of(pool_workers as int, self.num_v_heads as int), 1),
    {
        max_usize(min_usize(pool_workers, self.num_v_heads), 1)
    }

    /// Whether the kernel that holds a whole row of values in registers can run a head:
    /// it is written for rows of 128.
    pub fn uses_wide_recurrence(&self, avx512f: bool) -> (b: bool)
        ensures
            b == (avx512f && self.head_v_dim == 128),
    {
        avx512f && self.head_v_dim == 128
    }
}

/// A value head stays inside the state, the values and the keys of its layer.
pub proof fn law_windows_stay_inside(shape: DeltaNetShape, vh: int)
    requires
        shape.is_grouped(),
        0 <= vh < shape.num_v_heads,
    ensures
        0 <= shape.key_head(vh) < shape.num_k_heads,
        shape.num_v_heads as int / shape.num_k_heads as int > 0,
        0 <= vh * (shape.head_k_dim * shape.head_v_dim),
        (vh + 1) * (shape.head_k_dim * shape.head_v_dim) <= shape.num_v_heads * (shape.head_k_dim
            * shape.head_v_dim),
        0 <= vh * shape.head_v_dim,
        (vh + 1) * shape.head_v_dim <= shape.spec_value_dim(),
        0 <= shape.key_head(vh) * shape.head_k_dim,
        (shape.key_head(vh) + 1) * shape.head_k_dim <= shape.spec_key_dim(),
        vh * (shape.head_k_dim * shape.head_v_dim) <= (vh + 1) * (shape.head_k_dim
            * shape.head_v_dim),
        vh * shape.head_v_dim <= (vh + 1) * shape.head_v_dim,
        shape.key_head(vh) * shape.head_k_dim <= (shape.key_head(vh) + 1) * shape.head_k_dim,
{
    let k = shape.num_k_heads as int;
    let v = shape.num_v_heads as int;
    let group = v / k;
    vstd::arithmetic::div_mod::lemma_fundamental_div_mod(v, k);
    assert(group > 0) by (nonlinear_arith)
        requires
            v == k * group,
            v > 0,
            k > 0,
    ;
    let kh = vh / group;
    vstd::arithmetic::div_mod::lemma_fundamental_div_mod(vh, group);
    vstd::arithmetic::div_mod::lemma_mod_bound(vh, group);
    assert(0 <= kh < k) by (nonlinear_arith)
        requires
            vh == group * kh + vh % group,
            0 <= vh % group < group,
            0 <= vh < k * group,
            group > 0,
    ;
    let size = shape.head_k_dim * shape.head_v_dim;
    assert(size >= 0) by (nonlinear_arith)
        requires
            size == shape.head_k_dim * shape.head_v_dim,
    ;
    assert(0 <= vh * size <= (vh + 1) * size && (vh + 1) * size <= v * size) by (nonlinear_arith)
        requires
            0 <= vh < v,
            size >= 0,
    ;
    let hv = shape.head_v_dim as int;
    assert(0 <= vh * hv <= (vh + 1) * hv && (vh + 1) * hv <= v * hv) by (nonlinear_arith)
        requires
            0 <= vh < v,
            hv >= 0,
    ;
    let hk = shape.head_k_dim as int;
    assert(0 <= kh * hk <= (kh + 1) * hk && (kh + 1) * hk <= k * hk) by (nonlinear_arith)
        requires
            0 <= kh < k,
            hk >= 0,
    ;
}

/// The matrices of two value heads never overlap, and neither do their outputs.
pub proof fn law_windows_are_disjoint(shape: DeltaNetShape, a: int, b: int)
    requires
        0 <= a < b < shape.num_v_heads,
    ensures
        a * (shape.head_k_dim * shape.head_v_dim) + shape.head_k_dim * shape.head_v_dim <= b * (
        shape.head_k_dim * shape.head_v_dim),
        a * shape.head_v_dim + shape.head_v_dim <= b * shape.head_v_dim,
{
    let size = shape.head_k_dim * shape.head_v_dim;
    assert(size >= 0) by (nonlinear_arith)
        requires
            size == shape.head_k_dim * shape.head_v_dim,
    ;
    assert(a * size + size <= b * size) by (nonlinear_arith)
        requires
            a + 1 <= b,
            size >= 0,
    ;
    let hv = shape.head_v_dim as int;
    assert(a * hv + hv <= b * hv) by (nonlinear_arith)
        requires
            a + 1 <= b,
            hv >= 0,
    ;
}

// ---------------------------------------------------------------------------
// The steps of a layer
// ---------------------------------------------------------------------------

/// What a layer mixes its tokens with.
#[derive(Clone, Copy, Debug, PartialEq, Eq, Structural)]
pub enum BlockKind {
    Attention,
    Convolution,
    GatedDeltaNet,
}

/// How a layer normalises.
#[derive(Clone, Copy, Debug, PartialEq, Eq, Structural)]
pub enum NormType {
    RMSNorm,
    /// With one added to every weight.
    GemmaRMSNorm,
}

/// One step of a layer. The residual stream is what the layer passes on; the block and
/// the feed-forward part each have a normalised input and an output of their own.
#[derive(Clone, Copy, Debug, PartialEq, Eq, Structural)]
pub enum LayerStep {
    /// Normalise the residual stream for the block.
    InputNorm,
    /// Run the block.
    Block,
    /// Normalise the block's output.
    NormBlockOutput,
    /// Add the block's output to the residual stream.
    AddBlock,
    /// Add the block's output and normalise for the feed-forward part, in one go, which
    /// may also quantise the result.
    AddBlockAndNorm,
    /// Normalise the residual stream for the feed-forward part, with the weights of the
    /// norm behind attention.
    PostAttentionNorm,
    /// The same with the weights of the norm before the feed-forward part.
    PreFeedForwardNorm,
    /// Run the feed-forward part.
    FeedForward,
    /// Normalise the feed-forward part's output.
    NormFeedForwardOutput,
    /// Add the feed-forward part's output to the residual stream.
    AddFeedForward,
}

/// Why a layer does not run.
#[derive(Clone, Copy, Debug, PartialEq, Eq, Structural)]
pub enum LayerError {
    /// Only attention can be run in two phases.
    NotAttention,
}

/// How a layer is put together.
#[derive(Clone, Copy, Debug, PartialEq, Eq, Structural)]
pub struct LayerShape {
    pub block: BlockKind,
    pub norm_type: NormType,
    /// Whether the norm behind attention has a bias.
    pub post_attention_bias: bool,
    /// Whether the layer has norms around its feed-forward part, too.
    pub four_norms: bool,
}

impl LayerShape {
    /// Whether the first residual and the second norm are one step.
    pub open spec fn fuses(self) -> bool {
        self.norm_type is RMSNorm && !self.post_attention_bias
    }

    /// The steps up to the input of the feed-forward part, with two norms.
    pub open spec fn steps_to_norm2(self) -> Seq<LayerStep> {
        if self.fuses() {
            seq![LayerStep::InputNorm, LayerStep::Block, LayerStep::AddBlockAndNorm]
        } else {
            seq![
                LayerStep::InputNorm,
                LayerStep::Block,
                LayerStep::AddBlock,
                LayerStep::PostAttentionNorm,
            ]
        }
    }

    /// The steps of a layer with four norms.
    pub open spec fn four_norm_steps() -> Seq<LayerStep> {
        seq![
            LayerStep::InputNorm,
            LayerStep::Block,
            LayerStep::NormBlockOutput,
            LayerStep::AddBlock,
            LayerStep::PreFeedForwardNorm,
            LayerStep::FeedForward,
            LayerStep::NormFeedForwardOutput,
            LayerStep::AddFeedForward,
        ]
    }

    /// The steps of the layer on one token.
    pub open spec fn decode_steps(self) -> Seq<LayerStep> {
        if self.four_norms {
            LayerShape::four_norm_steps()
        } else {
            self.steps_to_norm2() + seq![LayerStep::FeedForward, LayerStep::AddFeedForward]
        }
    }

    /// The steps of the layer on a run of tokens.
    pub open spec fn prefill_steps(self) -> Seq<LayerStep> {
        if self.four_norms {
            LayerShape::four_norm_steps()
        } else {
            seq![
                LayerStep::InputNorm,
                LayerStep::Block,
                LayerStep::AddBlock,
                LayerStep::PostAttentionNorm,
                LayerStep::FeedForward,
                LayerStep::AddFeedForward,
            ]
        }
    }

    fn steps_with_four_norms() -> (steps: Vec<LayerStep>)
        ensures
            steps@ == LayerShape::four_norm_steps(),
    {
        let steps: Vec<LayerStep> = vec![
            LayerStep::InputNorm,
            LayerStep::Block,
            LayerStep::NormBlockOutput,
            LayerStep::AddBlock,
            LayerStep::PreFeedForwardNorm,
            LayerStep::FeedForward,
            LayerStep::NormFeedForwardOutput,
            LayerStep::AddFeedForward,
        ];
        proof {
            assert(steps@ =~= LayerShape::four_norm_steps());
        }
        steps
    }

    /// The steps up to the input of the feed-forward part, for a caller who runs that
    /// part elsewhere.
    pub fn forward_decode_through_norm2(&self) -> (steps: Vec<LayerStep>)
        ensures
            steps@ == self.steps_to_norm2(),
    {
        let steps: Vec<LayerStep> = if self.norm_type == NormType::RMSNorm
            && !self.post_attention_bias {
            vec![LayerStep::InputNorm, LayerStep::Block, LayerStep::AddBlockAndNorm]
        } else {
            vec![
                LayerStep::InputNorm,
                LayerStep::Block,
                LayerStep::AddBlock,
                LayerStep::PostAttentionNorm,
            ]
        };
        proof {
            assert(steps@ =~= self.steps_to_norm2());
        }
        steps
    }

    /// The steps of the layer on one token.
    pub fn forward_decode(&self) -> (steps: Vec<LayerStep>)
        ensures
            steps@ == self.decode_steps(),
    {
        if self.four_norms {
            return LayerShape::steps_with_four_norms();
        }
        let mut steps: Vec<LayerStep> = self.forward_decode_through_norm2();
        steps.push(LayerStep::FeedForward);
        steps.push(LayerStep::AddFeedForward);
        proof {
            assert(steps@ =~= self.decode_steps());
        }
        steps
    }

    /// The steps of the layer on a run of tokens.
    pub fn forward_prefill(&self) -> (steps: Vec<LayerStep>)
        ensures
            steps@ == self.prefill_steps(),
    {
        if self.four_norms {
            return LayerShape::steps_with_four_norms();
        }
        let steps: Vec<LayerStep> = vec![
            LayerStep::InputNorm,
            LayerStep::Block,
            LayerStep::AddBlock,
            LayerStep::PostAttentionNorm,
            LayerStep::FeedForward,
            LayerStep::AddFeedForward,
        ];
        proof {
            assert(steps@ =~= self.prefill_steps());
        }
        steps
    }

    /// Whether the layer can be run in two phases, the first of which needs no keys and
    /// values of other tokens.
    pub fn forward_prefill_phase_a(&self) -> (can: Result<(), LayerError>)
        ensures
            can is Ok <==> self.block is Attention,
            can is Err ==> can->Err_0 is NotAttention,
    {
        match self.block {
            BlockKind::Attention => Ok(()),
            BlockKind::Convolution => Err(LayerError::NotAttention),
            BlockKind::GatedDeltaNet => Err(LayerError::NotAttention),
        }
    }

    /// The steps of the second phase on a run of tokens: those behind the first norm.
    /// Of the block, its own second phase is run.
    pub fn forward_prefill_phase_b(&self) -> (steps: Vec<LayerStep>)
        requires
            self.block is Attention,
        ensures
            steps@ == self.prefill_steps().skip(1),
    {
        let mut steps: Vec<LayerStep> = self.forward_prefill();
        steps.remove(0);
        proof {
            assert(steps@ =~= self.prefill_steps().skip(1));
        }
        steps
    }
}

/// Whether a step adds the block's output to the residual stream.
pub open spec fn adds_block(step: LayerStep) -> bool {
    step is AddBlock || step is AddBlockAndNorm
}

/// Whether a step prepares the input of the feed-forward part.
pub open spec fn readies_feed_forward(step: LayerStep) -> bool {
    step is AddBlockAndNorm || step is PostAttentionNorm || step is PreFeedForwardNorm
}

/// The steps normalise, run the block at place 1, add its output at place `a` and
/// nowhere else, ready the input of the feed-forward part at place `n`, run that part
/// right behind, and add its output last.
pub open spec fn in_order(steps: Seq<LayerStep>, a: int, n: int) -> bool {
    &&& 1 < a <= n < steps.len() - 2
    &&& steps[0] is InputNorm
    &&& forall|i: int|
        0 <= i < steps.len() ==> {
            &&& steps[i] is Block <==> i == 1
            &&& adds_block(#[trigger] steps[i]) <==> i == a
            &&& readies_feed_forward(steps[i]) <==> i == n
            &&& steps[i] is FeedForward <==> i == n + 1
            &&& steps[i] is AddFeedForward <==> i == steps.len() - 1
        }
}

/// In decode as in prefill, a layer normalises, runs its block once and adds the output
/// once, then normalises, runs its feed-forward part once and adds that output once and
/// last.
pub proof fn law_block_then_feed_forward(shape: LayerShape)
    ensures
        exists|a: int, n: int| #[trigger] in_order(shape.decode_steps(), a, n),
        exists|a: int, n: int| #[trigger] in_order(shape.prefill_steps(), a, n),
{
    let decode = shape.decode_steps();
    let prefill = shape.prefill_steps();
    if shape.four_norms {
        assert(in_order(decode, 3, 4));
        assert(in_order(prefill, 3, 4));
    } else {
        if shape.fuses() {
            assert(decode.len() == 5);
            assert(in_order(decode, 2, 2));
        } else {
            assert(decode.len() == 6);
            assert(in_order(decode, 2, 3));
        }
        assert(in_order(prefill, 2, 3));
    }
}

/// The first norm of a layer and the steps of its second phase make a prefill.
pub proof fn law_phases_make_a_layer(shape: LayerShape)
    ensures
        shape.prefill_steps() == seq![LayerStep::InputNorm] + shape.prefill_steps().skip(1),
{
    assert(shape.prefill_steps() =~= seq![LayerStep::InputNorm] + shape.prefill_steps().skip(1));
}

// ---------------------------------------------------------------------------
// Layers
// ---------------------------------------------------------------------------

/// A short convolution over the tokens. Weights and scalars are the caller's.
pub struct GenericConvolution<F, W> {
    pub in_proj: W,
    pub conv_kernel: Vec<F>,
    pub out_proj: W,
    pub hidden_size: usize,
    pub conv_l_cache: usize,
}

/// A recurrent block. Weights and scalars are the caller's.
pub struct GenericGatedDeltaNet<F, W> {
    pub in_proj_qkv: W,
    pub in_proj_z: W,
    pub in_proj_a: Vec<F>,
    pub in_proj_b: Vec<F>,
    pub conv1d_weight: Vec<F>,
    pub a_log: Vec<F>,
    pub dt_bias: Vec<F>,
    pub norm_weight: Vec<u16>,
    pub out_proj: W,
    pub shape: DeltaNetShape,
    pub rms_norm_eps: F,
}

/// What a layer mixes its tokens with, with its weights.
pub enum LayerBlock<F, W> {
    Attention(GenericAttention<F, W>),
    Convolution(GenericConvolution<F, W>),
    GatedDeltaNet(GenericGatedDeltaNet<F, W>),
}

impl<F, W> LayerBlock<F, W> {
    /// The kind of the block.
    pub open spec fn spec_kind(self) -> BlockKind {
        match self {
            LayerBlock::Attention(_) => BlockKind::Attention,
            LayerBlock::Convolution(_) => BlockKind::Convolution,
            LayerBlock::GatedDeltaNet(_) => BlockKind::GatedDeltaNet,
        }
    }

    /// The kind of the block.
    pub fn kind(&self) -> (kind: BlockKind)
        ensures
            kind == self.spec_kind(),
    {
        match self {
            LayerBlock::Attention(_) => BlockKind::Attention,
            LayerBlock::Convolution(_) => BlockKind::Convolution,
            LayerBlock::GatedDeltaNet(_) => BlockKind::GatedDeltaNet,
        }
    }

    /// The block with sixteen-bit queries, where it has queries.
    pub open spec fn narrowed(self) -> Self {
        match self {
            LayerBlock::Attention(a) => LayerBlock::Attention(
                GenericAttention { use_q_bf16: true, ..a },
            ),
            LayerBlock::Convolution(c) => LayerBlock::Convolution(c),
            LayerBlock::GatedDeltaNet(g) => LayerBlock::GatedDeltaNet(g),
        }
    }

    fn narrow(&mut self)
        ensures
            *final(self) == old(self).narrowed(),
    {
        match self {
            LayerBlock::Attention(a) => {
                a.use_q_bf16 = true;
            },
            LayerBlock::Convolution(_) => {},
            LayerBlock::GatedDeltaNet(_) => {},
        }
    }
}

/// A decoder layer: a block and a feed-forward part, with their norms.
pub struct GenericDecoderLayer<F, W, P> {
    pub input_layernorm: Vec<u16>,
    pub input_layernorm_bias: Option<Vec<F>>,
    pub block: LayerBlock<F, W>,
    pub post_attention_layernorm: Vec<u16>,
    pub post_attention_layernorm_bias: Option<Vec<F>>,
    /// The norm before the feed-forward part, in a layer with four norms.
    pub pre_feedforward_layernorm: Option<Vec<u16>>,
    /// The norm behind the feed-forward part, in a layer with four norms.
    pub post_feedforward_layernorm: Option<Vec<u16>>,
    pub ffn: GenericFFN<F, W, P>,
    pub hidden_size: usize,
    pub rms_norm_eps: F,
    pub norm_type: NormType,
}

impl<F, W, P> GenericDecoderLayer<F, W, P> {
    /// How the layer is put together.
    pub open spec fn spec_shape(self) -> LayerShape {
        LayerShape {
            block: self.block.spec_kind(),
            norm_type: self.norm_type,
            post_attention_bias: self.post_attention_layernorm_bias is Some,
            four_norms: self.post_feedforward_layernorm is Some,
        }
    }

    /// How the layer is put together.
    pub fn shape(&self) -> (shape: LayerShape)
        ensures
            shape == self.spec_shape(),
    {
        LayerShape {
            block: self.block.kind(),
            norm_type: self.norm_type,
            post_attention_bias: self.post_attention_layernorm_bias.is_some(),
            four_norms: self.post_feedforward_layernorm.is_some(),
        }
    }

    /// The steps of the layer on one token.
    pub fn forward_decode(&self) -> (steps: Vec<LayerStep>)
        ensures
            steps@ == self.spec_shape().decode_steps(),
    {
        self.shape().forward_decode()
    }

    /// The steps up to the input of the feed-forward part, for a caller who runs that
    /// part elsewhere.
    pub fn forward_decode_through_norm2(&self) -> (steps: Vec<LayerStep>)
        ensures
            steps@ == self.spec_shape().steps_to_norm2(),
    {
        self.shape().forward_decode_through_norm2()
    }

    /// The steps of the layer on a run of tokens.
    pub fn forward_prefill(&self) -> (steps: Vec<LayerStep>)
        ensures
            steps@ == self.spec_shape().prefill_steps(),
    {
        self.shape().forward_prefill()
    }

    /// The attention block whose first phase is run behind the first norm, where the
    /// layer has one.
    pub fn forward_prefill_phase_a(&self) -> (block: Result<&GenericAttention<F, W>, LayerError>)
        ensures
            match block {
                Ok(a) => self.block == LayerBlock::Attention(*a),
                Err(e) => !(self.block is Attention) && e is NotAttention,
            },
    {
        match &self.block {
            LayerBlock::Attention(a) => Ok(a),
            LayerBlock::Convolution(_) => Err(LayerError::NotAttention),
            LayerBlock::GatedDeltaNet(_) => Err(LayerError::NotAttention),
        }
    }

    /// The steps of the second phase on a run of tokens.
    pub fn forward_prefill_phase_b(&self) -> (steps: Vec<LayerStep>)
        requires
            self.block is Attention,
        ensures
            steps@ == self.spec_shape().prefill_steps().skip(1),
    {
        self.shape().forward_prefill_phase_b()
    }
}

/// What the first phase of a layer hands to the second: the normalised input, and what
/// the attention block made of it.
pub struct LayerPhaseAOutput<F> {
    pub norm1: Vec<F>,
    pub attn_phase_a: PrefillPhaseAOutput<F>,
}

/// Lets every attention block use sixteen-bit queries. Nothing else changes.
pub fn enable_narrow_queries<F, W, P>(layers: &mut Vec<GenericDecoderLayer<F, W, P>>)
    ensures
        final(layers)@.len() == old(layers)@.len(),
        forall|i: int|
            0 <= i < old(layers)@.len() ==> #[trigger] final(layers)@[i] == (GenericDecoderLayer {
                block: old(layers)@[i].block.narrowed(),
                ..old(layers)@[i]
            }),
{
    let ghost before = layers@;
    let count: usize = layers.len();
    let mut i: usize = 0;
    while i < count
        invariant
            i <= count == layers@.len() == before.len(),
            forall|j: int|
                0 <= j < i ==> #[trigger] layers@[j] == (GenericDecoderLayer {
                    block: before[j].block.narrowed(),
                    ..before[j]
                }),
            forall|j: int| i <= j < count ==> #[trigger] layers@[j] == before[j],
        decreases count - i,
    {
        layers[i].block.narrow();
        i = i + 1;
    }
}

/// Value heads share key heads in groups of equal size: the first group the first key
/// head, the next the next.
pub proof fn law_value_heads_share_in_groups(shape: DeltaNetShape, kh: int, j: int)
    requires
        shape.num_k_heads > 0,
        0 <= kh,
        0 <= j < shape.num_v_heads as int / shape.num_k_heads as int,
    ensures
        shape.key_head(kh * (shape.num_v_heads as int / shape.num_k_heads as int) + j) == kh,
{
    let g = shape.num_v_heads as int / shape.num_k_heads as int;
    vstd::arithmetic::div_mod::lemma_fundamental_div_mod_converse(kh * g + j, g, kh, j);
}

/// The channels of the convolution are the queries, the keys and the values of all heads.
pub proof fn law_channels_are_the_heads(shape: DeltaNetShape)
    ensures
        shape.spec_key_dim() == shape.num_k_heads * shape.head_k_dim,
        shape.spec_value_dim() == shape.num_v_heads * shape.head_v_dim,
        shape.spec_conv_dim() == 2 * (shape.num_k_heads * shape.head_k_dim) + shape.num_v_heads
            * shape.head_v_dim,
{
}

/// The place of a step in a layer.
pub open spec fn layer_place(step: LayerStep) -> int {
    match step {
        LayerStep::InputNorm => 0,
        LayerStep::Block => 1,
        LayerStep::NormBlockOutput => 2,
        LayerStep::AddBlock => 3,
        LayerStep::AddBlockAndNorm => 3,
        LayerStep::PostAttentionNorm => 4,
        LayerStep::PreFeedForwardNorm => 4,
        LayerStep::FeedForward => 5,
        LayerStep::NormFeedForwardOutput => 6,
        LayerStep::AddFeedForward => 7,
    }
}

/// The steps come in the order of their places, none of them twice.
pub open spec fn in_layer_order(steps: Seq<LayerStep>) -> bool {
    forall|i: int, j: int|
        0 <= i < j < steps.len() ==> layer_place(#[trigger] steps[i]) < layer_place(
            #[trigger] steps[j],
        )
}

/// Decoding takes every step that the layer asks for, each once and in order, and no
/// other. Adding and normalising are one step where the norm allows it and there is no
/// bias, unless outputs are normalised, too.
pub proof fn law_decode_takes_the_layer_steps(shape: LayerShape)
    ensures
        in_layer_order(shape.decode_steps()),
        shape.decode_steps().contains(LayerStep::InputNorm),
        shape.decode_steps().contains(LayerStep::Block),
        shape.decode_steps().contains(LayerStep::NormBlockOutput) <==> shape.four_norms,
        shape.decode_steps().contains(LayerStep::AddBlock) <==> shape.four_norms || !(shape.norm_type is RMSNorm && !shape.post_attention_bias),
        shape.decode_steps().contains(LayerStep::AddBlockAndNorm) <==> !shape.four_norms && shape.norm_type is RMSNorm && !shape.post_attention_bias,
        shape.decode_steps().contains(LayerStep::PostAttentionNorm) <==> !shape.four_norms && !(shape.norm_type is RMSNorm && !shape.post_attention_bias),
        shape.decode_steps().contains(LayerStep::PreFeedForwardNorm) <==> shape.four_norms,
        shape.decode_steps().contains(LayerStep::FeedForward),
        shape.decode_steps().contains(LayerStep::NormFeedForwardOutput) <==> shape.four_norms,
        shape.decode_steps().contains(LayerStep::AddFeedForward),
{
    let steps = shape.decode_steps();
    if shape.four_norms {
        assert(steps.len() == 8);
        assert(steps[0] == LayerStep::InputNorm);
        assert(steps[1] == LayerStep::Block);
        assert(steps[2] == LayerStep::NormBlockOutput);
        assert(steps[3] == LayerStep::AddBlock);
        assert(steps[4] == LayerStep::PreFeedForwardNorm);
        assert(steps[5] == LayerStep::FeedForward);
        assert(steps[6] == LayerStep::NormFeedForwardOutput);
        assert(steps[7] == LayerStep::AddFeedForward);
    } else if shape.norm_type is RMSNorm && !shape.post_attention_bias {
        assert(steps.len() == 5);
        assert(steps[0] == LayerStep::InputNorm);
        assert(steps[1] == LayerStep::Block);
        assert(steps[2] == LayerStep::AddBlockAndNorm);
        assert(steps[3] == LayerStep::FeedForward);
        assert(steps[4] == LayerStep::AddFeedForward);
    } else {
        assert(steps.len() == 6);
        assert(steps[0] == LayerStep::InputNorm);
        assert(steps[1] == LayerStep::Block);
        assert(steps[2] == LayerStep::AddBlock);
        assert(steps[3] == LayerStep::PostAttentionNorm);
        assert(steps[4] == LayerStep::FeedForward);
        assert(steps[5] == LayerStep::AddFeedForward);
    }
}

/// The steps up to the second norm are those of a layer that normalises no outputs, up to
/// there.
pub proof fn law_steps_end_with_the_second_norm(shape: LayerShape)
    ensures
        in_layer_order(shape.steps_to_norm2()),
        shape.steps_to_norm2().contains(LayerStep::InputNorm),
        shape.steps_to_norm2().contains(LayerStep::Block),
        !shape.steps_to_norm2().contains(LayerStep::NormBlockOutput),
        shape.steps_to_norm2().contains(LayerStep::AddBlock) <==> !(shape.norm_type is RMSNorm && !shape.post_attention_bias),
        shape.steps_to_norm2().contains(LayerStep::AddBlockAndNorm) <==> shape.norm_type is RMSNorm && !shape.post_attention_bias,
        shape.steps_to_norm2().contains(LayerStep::PostAttentionNorm) <==> !(shape.norm_type is RMSNorm && !shape.post_attention_bias),
        !shape.steps_to_norm2().contains(LayerStep::PreFeedForwardNorm),
        !shape.steps_to_norm2().contains(LayerStep::FeedForward),
        !shape.steps_to_norm2().contains(LayerStep::NormFeedForwardOutput),
        !shape.steps_to_norm2().contains(LayerStep::AddFeedForward),
{
    let steps = shape.steps_to_norm2();
    if shape.norm_type is RMSNorm && !shape.post_attention_bias {
        assert(steps.len() == 3);
        assert(steps[0] == LayerStep::InputNorm);
        assert(steps[1] == LayerStep::Block);
        assert(steps[2] == LayerStep::AddBlockAndNorm);
    } else {
        assert(steps.len() == 4);
        assert(steps[0] == LayerStep::InputNorm);
        assert(steps[1] == LayerStep::Block);
        assert(steps[2] == LayerStep::AddBlock);
        assert(steps[3] == LayerStep::PostAttentionNorm);
    }
}

/// A prefill takes every step that the layer asks for, each once and in order, and no
/// other. It never adds and normalises in one step.
pub proof fn law_prefill_takes_the_layer_steps(shape: LayerShape)
    ensures
        in_layer_order(shape.prefill_steps()),
        shape.prefill_steps().contains(LayerStep::InputNorm),
        shape.prefill_steps().contains(LayerStep::Block),
        shape.prefill_steps().contains(LayerStep::NormBlockOutput) <==> shape.four_norms,
        shape.prefill_steps().contains(LayerStep::AddBlock),
        !shape.prefill_steps().contains(LayerStep::AddBlockAndNorm),
        shape.prefill_steps().contains(LayerStep::PostAttentionNorm) <==> !shape.four_norms,
        shape.prefill_steps().contains(LayerStep::PreFeedForwardNorm) <==> shape.four_norms,
        shape.prefill_steps().contains(LayerStep::FeedForward),
        shape.prefill_steps().contains(LayerStep::NormFeedForwardOutput) <==> shape.four_norms,
        shape.prefill_steps().contains(LayerStep::AddFeedForward),
{
    let steps = shape.prefill_steps();
    if shape.four_norms {
        assert(steps.len() == 8);
        assert(steps[0] == LayerStep::InputNorm);
        assert(steps[1] == LayerStep::Block);
        assert(steps[2] == LayerStep::NormBlockOutput);
        assert(steps[3] == LayerStep::AddBlock);
        assert(steps[4] == LayerStep::PreFeedForwardNorm);
        assert(steps[5] == LayerStep::FeedForward);
        assert(steps[6] == LayerStep::NormFeedForwardOutput);
        assert(steps[7] == LayerStep::AddFeedForward);
    } else {
        assert(steps.len() == 6);
        assert(steps[0] == LayerStep::InputNorm);
        assert(steps[1] == LayerStep::Block);
        assert(steps[2] == LayerStep::AddBlock);
        assert(steps[3] == LayerStep::PostAttentionNorm);
        assert(steps[4] == LayerStep::FeedForward);
        assert(steps[5] == LayerStep::AddFeedForward);
    }
}

/// The shape of a layer tells what block it has, which norm, and whether the second norm
/// has a bias and outputs are normalised.
pub proof fn law_layer_shape_tells_the_parts<F, W, P>(layer: GenericDecoderLayer<F, W, P>)
    ensures
        layer.spec_shape().norm_type == layer.norm_type,
        layer.spec_shape().post_attention_bias <==> layer.post_attention_layernorm_bias is Some,
        layer.spec_shape().four_norms <==> layer.post_feedforward_layernorm is Some,
        layer.spec_shape().block is Attention <==> layer.block is Attention,
        layer.spec_shape().block is Convolution <==> layer.block is Convolution,
        layer.spec_shape().block is GatedDeltaNet <==> layer.block is GatedDeltaNet,
{
}

/// Asking for sixteen-bit queries changes nothing else in an attention block, and nothing
/// at all in another.
pub proof fn law_narrowing_changes_the_queries_only<F, W>(block: LayerBlock<F, W>)
    ensures
        block is Attention <==> block.narrowed() is Attention,
        block matches LayerBlock::Attention(a) ==> block.narrowed() matches LayerBlock::Attention(n)
            && n.use_q_bf16 && (GenericAttention { use_q_bf16: a.use_q_bf16, ..n }) == a,
        !(block is Attention) ==> block.narrowed() == block,
{
}

} // verus!
