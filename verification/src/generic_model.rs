//! A model's forward passes: what is refused, what each step reads and writes, and
//! which token comes out.
//!
//! The arithmetic of a layer is the caller's. A pass is handed out as a series of
//! actions, which say which layer to run on which buffer, when the cache moves on, and
//! which rows of the result to use.

use vstd::prelude::*;

use crate::bf16_convert::bf16_to_f32_bits;
use crate::bf16_convert::widened;
use crate::config::Config;
use crate::float_order::{exceeds, is_greater, is_nan_spec, order_key_spec};
use crate::kv_cache::{
    copy_vec, layers_have_room, reserve_of, state_fits, CpuKvCache, InferenceContext, KvQuantType,
    KvStore,
};

verus! {

/// Why a forward pass does not start.
#[derive(Clone, Copy, Debug, PartialEq, Eq, Structural)]
#[allow(inconsistent_fields)]
pub enum ModelError {
    /// There is nothing to run on.
    EmptyInput,
    /// The sequence would be longer than the model takes.
    ContextExceeded { end_pos: usize, max_pos: usize },
    /// The model takes no sequence that has a token at the position.
    PositionExceeded { pos: usize, max_pos: usize },
    /// A token has no embedding.
    TokenOutOfRange { token: usize, vocab_size: usize },
    /// There is not one position for each token.
    PositionsMismatch { positions: usize, tokens: usize },
    /// There is not one embedding for each position.
    EmbedsMismatch { len: usize, seq_len: usize, hidden_size: usize },
    /// The embeddings are not whole rows.
    EmbedsNotDivisible { len: usize, hidden_size: usize },
    /// The place of a position's rotation is no machine number.
    RopeIndexOverflow,
    /// There is no rotation for a position.
    RopeCacheExceeded { pos: usize, max_pos: usize },
    /// There are no logits to choose from.
    EmptyLogits,
}

/// Features of images that are added to the output of the first layers.
pub struct DeepStackInfo<F> {
    /// Where the image tokens stand, in rising order.
    pub image_token_indices: Vec<usize>,
    /// For each layer, the features of all image tokens.
    pub layer_features: Vec<Vec<F>>,
}

impl<F> DeepStackInfo<F> {
    /// The features that are added to the output of a layer.
    pub fn features_for(&self, layer_idx: usize) -> (features: Option<&Vec<F>>)
        ensures
            match features {
                Some(f) => layer_idx < self.layer_features@.len() && *f
                    == self.layer_features@[layer_idx as int],
                None => layer_idx >= self.layer_features@.len(),
            },
    {
        if layer_idx < self.layer_features.len() {
            Some(&self.layer_features[layer_idx])
        } else {
            None
        }
    }
}

// ---------------------------------------------------------------------------
// Passes
// ---------------------------------------------------------------------------

/// One of the two buffers between which the layers write in turn.
#[derive(Clone, Copy, Debug, PartialEq, Eq, Structural)]
pub enum Buffer {
    A,
    B,
}

/// Where the rotations of a pass come from.
#[derive(Clone, Copy, Debug, PartialEq, Eq, Structural)]
pub enum RopeSource {
    /// The cache that belongs to the layer.
    OfLayer,
    /// The main cache, for all layers.
    Main,
    /// Computed from positions in three dimensions.
    Positions,
}

/// What a pass is run for.
#[derive(Clone, Copy, Debug, PartialEq, Eq, Structural)]
pub enum PassOutput {
    /// The logits of the last row.
    LastLogits,
    /// The logits of every row.
    AllLogits,
    /// The hidden state of the last row.
    LastHidden,
    /// The hidden state of every row.
    AllHidden,
}

/// One action of a pass.
#[derive(Clone, Copy, Debug, PartialEq, Eq, Structural)]
pub enum PassAction {
    /// Run a layer on one buffer and write its output to the other.
    RunLayer { layer: usize, from: Buffer, to: Buffer },
    /// Bring the cache up to date.
    Settle,
    /// Use a row of a buffer for the pass's output.
    Emit { buffer: Buffer, row: usize },
    /// Nothing is left to do.
    Done,
}

/// A forward pass on a run of tokens.
#[derive(Clone, Copy, Debug, PartialEq, Eq, Structural)]
pub struct Pass {
    pub seq_len: usize,
    pub start_pos: usize,
    pub num_layers: usize,
    pub rope: RopeSource,
    pub output: PassOutput,
    /// The number of actions that were taken.
    pub step: usize,
}

/// The buffer that holds the result of the first `layers` layers.
pub open spec fn buffer_after(layers: int) -> Buffer {
    if layers % 2 == 0 {
        Buffer::A
    } else {
        Buffer::B
    }
}

impl Pass {
    /// The pass has a row, and its steps can be counted.
    pub open spec fn wf(self) -> bool {
        self.seq_len > 0 && self.num_layers + self.seq_len + 2 <= usize::MAX
    }

    /// The first row that is used.
    pub open spec fn first_row(self) -> int {
        if self.output is LastLogits || self.output is LastHidden {
            self.seq_len - 1
        } else {
            0
        }
    }

    /// The action at a step.
    pub open spec fn action_at(self, step: int) -> PassAction {
        let row = self.first_row() + (step - self.num_layers - 1);
        if step < self.num_layers {
            PassAction::RunLayer {
                layer: step as usize,
                from: buffer_after(step),
                to: buffer_after(step + 1),
            }
        } else if step == self.num_layers {
            PassAction::Settle
        } else if row < self.seq_len {
            PassAction::Emit { buffer: buffer_after(self.num_layers as int), row: row as usize }
        } else {
            PassAction::Done
        }
    }

    /// Hands out the next action.
    pub fn next_action(&mut self) -> (action: PassAction)
        requires
            old(self).wf(),
        ensures
            action == old(self).action_at(old(self).step as int),
            *final(self) == (Pass {
                step: if action is Done {
                    old(self).step
                } else {
                    (old(self).step + 1) as usize
                },
                ..*old(self)
            }),
            final(self).wf(),
    {
        let step: usize = self.step;
        let last: Buffer = if self.num_layers % 2 == 0 {
            Buffer::A
        } else {
            Buffer::B
        };
        if step < self.num_layers {
            self.step = step + 1;
            if step % 2 == 0 {
                return PassAction::RunLayer { layer: step, from: Buffer::A, to: Buffer::B };
            }
            return PassAction::RunLayer { layer: step, from: Buffer::B, to: Buffer::A };
        }
        if step == self.num_layers {
            self.step = step + 1;
            return PassAction::Settle;
        }
        let first: usize = match self.output {
            PassOutput::LastLogits => self.seq_len - 1,
            PassOutput::LastHidden => self.seq_len - 1,
            PassOutput::AllLogits => 0,
            PassOutput::AllHidden => 0,
        };
        let emitted: usize = step - self.num_layers - 1;
        if emitted < self.seq_len - first {
            self.step = step + 1;
            return PassAction::Emit { buffer: last, row: first + emitted };
        }
        PassAction::Done
    }

    /// Whether the tokens of the pass stay in the cache.
    pub open spec fn keeps_tokens(self) -> bool {
        self.output is LastLogits || self.output is AllLogits
    }

    /// Brings the cache up to date behind the layers: a pass for logits counts its
    /// tokens; one for hidden states counts none, and attention looks back again.
    pub fn settle<F>(&self, kv: &mut KvStore<F>)
        requires
            self.keeps_tokens() ==> old(kv).seq_len + self.seq_len <= usize::MAX,
        ensures
            *final(kv) == (KvStore {
                seq_len: if self.keeps_tokens() {
                    (old(kv).seq_len + self.seq_len) as usize
                } else {
                    old(kv).seq_len
                },
                bidirectional: if self.output is AllHidden {
                    false
                } else {
                    old(kv).bidirectional
                },
                ..*old(kv)
            }),
            self.output is LastLogits || self.output is AllLogits ==> final(kv).seq_len == old(
                kv,
            ).seq_len + self.seq_len,
            self.output is LastHidden || self.output is AllHidden ==> final(kv).seq_len == old(
                kv,
            ).seq_len,
    {
        match self.output {
            PassOutput::LastLogits => {
                kv.seq_len = kv.seq_len + self.seq_len;
            },
            PassOutput::AllLogits => {
                kv.seq_len = kv.seq_len + self.seq_len;
            },
            PassOutput::LastHidden => {},
            PassOutput::AllHidden => {
                kv.bidirectional = false;
            },
        }
    }
}

/// Every layer reads what the layer before it wrote, the first reads buffer A, and the
/// rows that are used come out of the last one.
pub proof fn law_layers_are_chained(pass: Pass, layer: int)
    requires
        pass.wf(),
        0 <= layer < pass.num_layers,
    ensures
        pass.action_at(layer) == (PassAction::RunLayer {
            layer: layer as usize,
            from: buffer_after(layer),
            to: buffer_after(layer + 1),
        }),
        buffer_after(layer) != buffer_after(layer + 1),
        pass.action_at(0)->RunLayer_from == Buffer::A,
        layer + 1 < pass.num_layers ==> pass.action_at(layer)->RunLayer_to == pass.action_at(
            layer + 1,
        )->RunLayer_from,
        layer + 1 == pass.num_layers ==> pass.action_at(layer)->RunLayer_to == pass.action_at(
            pass.num_layers + 1,
        )->Emit_buffer,
{
}

/// A pass runs every layer once, then brings the cache up to date, then uses its rows
/// in order, and is done.
pub proof fn law_pass_has_an_end(pass: Pass, step: int)
    requires
        pass.wf(),
        0 <= step,
    ensures
        pass.action_at(step) is RunLayer <==> step < pass.num_layers,
        pass.action_at(step) is Settle <==> step == pass.num_layers,
        pass.action_at(step) is Done <==> step > pass.num_layers + (pass.seq_len
            - pass.first_row()),
        pass.action_at(step) is Emit ==> pass.action_at(step)->Emit_row == pass.first_row() + (step
            - pass.num_layers - 1),
{
}

/// A pass for all logits, or for all hidden states, uses every row once and in order:
/// behind the layers and the settling of the cache come row 0, row 1 and so on to the
/// last, and then the pass is done.
pub proof fn law_all_rows_are_used_in_order(pass: Pass, r: int)
    requires
        pass.seq_len > 0,
        pass.output is AllLogits || pass.output is AllHidden,
        0 <= r,
    ensures
        r < pass.seq_len ==> pass.action_at(pass.num_layers + 1 + r) == (PassAction::Emit {
            buffer: if pass.num_layers % 2 == 0 {
                Buffer::A
            } else {
                Buffer::B
            },
            row: r as usize,
        }),
        r >= pass.seq_len ==> pass.action_at(pass.num_layers + 1 + r) == PassAction::Done,
{
}

/// A pass for the last row uses that row alone, and then is done.
pub proof fn law_last_row_is_used_alone(pass: Pass, k: int)
    requires
        pass.seq_len > 0,
        pass.output is LastLogits || pass.output is LastHidden,
        0 <= k,
    ensures
        pass.action_at(pass.num_layers + 1) == (PassAction::Emit {
            buffer: if pass.num_layers % 2 == 0 {
                Buffer::A
            } else {
                Buffer::B
            },
            row: (pass.seq_len - 1) as usize,
        }),
        pass.action_at(pass.num_layers + 2 + k) == PassAction::Done,
{
}

/// A pass for logits keeps its tokens in the cache, and one for hidden states does not.
pub proof fn law_logits_keep_their_tokens(pass: Pass)
    ensures
        pass.output is LastLogits || pass.output is AllLogits ==> pass.keeps_tokens(),
        pass.output is LastHidden || pass.output is AllHidden ==> !pass.keeps_tokens(),
{
}

/// A pass starts with its layers: each once, in order, from one buffer to the other in
/// turn, the first from buffer A. Then the cache is brought up to date.
pub proof fn law_layers_run_in_order(pass: Pass, layer: int)
    requires
        0 <= layer < pass.num_layers,
    ensures
        pass.action_at(layer) == (if layer % 2 == 0 {
            PassAction::RunLayer { layer: layer as usize, from: Buffer::A, to: Buffer::B }
        } else {
            PassAction::RunLayer { layer: layer as usize, from: Buffer::B, to: Buffer::A }
        }),
        pass.action_at(pass.num_layers as int) == PassAction::Settle,
{
}

/// A new pass has everything before it: as many rows as there are tokens, behind as many
/// positions as are cached, through all layers of the model.
pub proof fn law_new_pass_has_all_layers<F, D, W>(
    model: GenericModel<F, D, W>,
    seq_len: usize,
    start_pos: usize,
    rope: RopeSource,
    output: PassOutput,
)
    requires
        model.decoder_layers@.len() <= usize::MAX,
    ensures
        ({
            let pass = model.pass(seq_len as int, start_pos as int, rope, output);
            &&& pass.seq_len == seq_len
            &&& pass.start_pos == start_pos
            &&& pass.num_layers == model.decoder_layers@.len()
            &&& pass.rope == rope
            &&& pass.output == output
            &&& pass.step == 0
        }),
{
}

// ---------------------------------------------------------------------------
// Choosing a token
// ---------------------------------------------------------------------------

/// The candidate that is left after the first `n` numbers: each number takes the place
/// of the one before it, unless that one is greater.
pub open spec fn candidate(logits: Seq<u32>, n: int) -> int
    decreases n,
{
    if n <= 1 {
        0
    } else {
        let before = candidate(logits, n - 1);
        if exceeds(logits[before], logits[n - 1]) {
            before
        } else {
            n - 1
        }
    }
}

/// Chooses the token with the greatest logit.
pub fn choose_token(logits: &[u32]) -> (token: Result<u32, ModelError>)
    requires
        logits@.len() <= 0x1_0000_0000,
    ensures
        token == (if logits@.len() == 0 {
            Err::<u32, ModelError>(ModelError::EmptyLogits)
        } else {
            Ok(candidate(logits@, logits@.len() as int) as u32)
        }),
{
    let len: usize = logits.len();
    if len == 0 {
        return Err(ModelError::EmptyLogits);
    }
    let mut best: usize = 0;
    let mut i: usize = 1;
    while i < len
        invariant
            1 <= i <= len == logits@.len(),
            best < i,
            best == candidate(logits@, i as int),
        decreases len - i,
    {
        if !is_greater(logits[best], logits[i]) {
            best = i;
        }
        i = i + 1;
    }
    Ok(best as u32)
}

/// Among numbers, the choice is a greatest one, and the last of those.
pub proof fn law_choice_is_last_greatest(logits: Seq<u32>, n: int)
    requires
        1 <= n <= logits.len(),
        forall|i: int| 0 <= i < n ==> !is_nan_spec(#[trigger] logits[i]),
    ensures
        0 <= candidate(logits, n) < n,
        forall|i: int|
            0 <= i < n ==> order_key_spec(#[trigger] logits[i]) <= order_key_spec(
                logits[candidate(logits, n)],
            ),
        forall|i: int|
            candidate(logits, n) < i < n ==> order_key_spec(#[trigger] logits[i]) < order_key_spec(
                logits[candidate(logits, n)],
            ),
    decreases n,
{
    if n > 1 {
        law_choice_is_last_greatest(logits, n - 1);
        assert(!is_nan_spec(logits[n - 1]));
        assert(!is_nan_spec(logits[candidate(logits, n - 1)]));
    }
}

/// The choice among one number is that number, and another number behind them is chosen
/// unless the choice so far is greater. So a number is chosen over what is not one, and
/// the other way round, by coming later.
pub proof fn law_choice_goes_through_the_logits(logits: Seq<u32>, n: int)
    requires
        1 <= n < logits.len(),
    ensures
        candidate(logits, 1) == 0,
        0 <= candidate(logits, n) < n,
        exceeds(logits[candidate(logits, n)], logits[n]) ==> candidate(logits, n + 1) == candidate(
            logits,
            n,
        ),
        !exceeds(logits[candidate(logits, n)], logits[n]) ==> candidate(logits, n + 1) == n,
    decreases n,
{
    if n > 1 {
        law_choice_goes_through_the_logits(logits, n - 1);
    }
}

/// Among numbers with a clear sign the choice has the largest pattern, and is the last
/// one with it.
pub proof fn law_choice_among_positive_numbers(logits: Seq<u32>, i: int)
    requires
        forall|j: int| 0 <= j < logits.len() ==> #[trigger] logits[j] <= 0x7f80_0000,
        0 <= i < logits.len(),
    ensures
        logits[i] <= logits[candidate(logits, logits.len() as int)],
        i > candidate(logits, logits.len() as int) ==> logits[i] < logits[candidate(
            logits,
            logits.len() as int,
        )],
{
    let n = logits.len() as int;
    assert forall|j: int| 0 <= j < n implies !is_nan_spec(#[trigger] logits[j]) by {
        assert(logits[j] <= 0x7f80_0000);
    }
    law_choice_is_last_greatest(logits, n);
    assert(logits[i] <= 0x7f80_0000);
    assert(logits[candidate(logits, n)] <= 0x7f80_0000);
}

// ---------------------------------------------------------------------------
// The model
// ---------------------------------------------------------------------------

/// A model: its embeddings and rotations, and its layers and output weights, which are
/// the caller's.
pub struct GenericModel<F, D, W> {
    /// One row of sixteen-bit numbers for each token.
    pub embed_tokens: Vec<u16>,
    pub decoder_layers: Vec<D>,
    pub norm: Vec<u16>,
    pub norm_bias: Option<Vec<F>>,
    pub lm_head: W,
    pub lm_head_bias: Option<Vec<F>>,
    pub config: Config,
    pub cos_cache: Vec<F>,
    pub sin_cache: Vec<F>,
    /// The rotations of layers that look back a limited way; empty where all layers
    /// share one cache.
    pub sliding_cos_cache: Vec<F>,
    pub sliding_sin_cache: Vec<F>,
    /// Frequencies for positions in three dimensions; empty for a text model.
    pub inv_freq: Vec<F>,
    /// Which dimension each frequency belongs to; empty for a text model.
    pub mrope_pattern: Vec<u8>,
}

/// What is wrong with the first token that has no embedding.
pub open spec fn token_error(tokens: Seq<u32>, vocab_size: usize) -> Option<ModelError>
    decreases tokens.len(),
{
    if tokens.len() == 0 {
        None
    } else {
        match token_error(tokens.drop_last(), vocab_size) {
            Some(e) => Some(e),
            None => if tokens.last() >= vocab_size {
                Some(
                    ModelError::TokenOutOfRange { token: tokens.last() as usize, vocab_size },
                )
            } else {
                None
            },
        }
    }
}

/// Nothing is wrong with the tokens if and only if each of them has an embedding.
pub proof fn law_known_tokens_are_accepted(tokens: Seq<u32>, vocab_size: usize)
    ensures
        token_error(tokens, vocab_size) is None <==> (forall|i: int|
            0 <= i < tokens.len() ==> #[trigger] tokens[i] < vocab_size),
    decreases tokens.len(),
{
    if tokens.len() > 0 {
        law_known_tokens_are_accepted(tokens.drop_last(), vocab_size);
        let rest = tokens.drop_last();
        assert(forall|i: int| 0 <= i < rest.len() ==> #[trigger] rest[i] == tokens[i]);
        if token_error(tokens, vocab_size) is None {
            assert forall|i: int| 0 <= i < tokens.len() implies #[trigger] tokens[i]
                < vocab_size by {
                if i < rest.len() {
                    assert(rest[i] < vocab_size);
                }
            }
        } else if token_error(rest, vocab_size) is Some {
            let i = choose|i: int| 0 <= i < rest.len() && !(#[trigger] rest[i] < vocab_size);
            assert(tokens[i] >= vocab_size);
        } else {
            assert(tokens[tokens.len() - 1] >= vocab_size);
        }
    }
}

/// Of several tokens without an embedding the first is the one that is named.
pub proof fn law_first_unknown_token_is_named(tokens: Seq<u32>, vocab_size: usize, i: int)
    requires
        0 <= i < tokens.len(),
        tokens[i] >= vocab_size,
        forall|j: int| 0 <= j < i ==> #[trigger] tokens[j] < vocab_size,
    ensures
        token_error(tokens, vocab_size) == Some(
            ModelError::TokenOutOfRange { token: tokens[i] as usize, vocab_size },
        ),
    decreases tokens.len(),
{
    let rest = tokens.drop_last();
    if i < rest.len() {
        law_first_unknown_token_is_named(rest, vocab_size, i);
    } else {
        law_known_tokens_are_accepted(rest, vocab_size);
        assert forall|j: int| 0 <= j < rest.len() implies #[trigger] rest[j] < vocab_size by {
            assert(tokens[j] < vocab_size);
        }
    }
}

/// What is wrong with a run of tokens behind `start_pos` others: there are none, they
/// reach past the longest sequence, or one has no embedding.
pub open spec fn run_error(
    tokens: Seq<u32>,
    start_pos: int,
    max_pos: usize,
    vocab_size: usize,
) -> Option<ModelError> {
    if tokens.len() == 0 {
        Some(ModelError::EmptyInput)
    } else if start_pos + tokens.len() > max_pos {
        Some(ModelError::ContextExceeded { end_pos: (start_pos + tokens.len()) as usize, max_pos })
    } else {
        token_error(tokens, vocab_size)
    }
}

/// The embeddings of a run of tokens, row behind row, widened to single precision.
pub open spec fn embedded(table: Seq<u16>, tokens: Seq<u32>, hidden_size: int) -> Seq<u32> {
    Seq::new(
        (tokens.len() * hidden_size) as nat,
        |i: int| widened(table[tokens[i / hidden_size] * hidden_size + i % hidden_size]),
    )
}

/// A run is refused if and only if it is empty, or reaches past the longest sequence, or
/// holds a token without an embedding, and for the first of these reasons.
pub proof fn law_runs_are_refused_for_a_reason(
    tokens: Seq<u32>,
    start_pos: int,
    max_pos: usize,
    vocab_size: usize,
)
    requires
        0 <= start_pos,
        start_pos + tokens.len() <= usize::MAX,
    ensures
        run_error(tokens, start_pos, max_pos, vocab_size) is None <==> 0 < tokens.len() && start_pos
            + tokens.len() <= max_pos && (forall|i: int|
            0 <= i < tokens.len() ==> #[trigger] tokens[i] < vocab_size),
        run_error(tokens, start_pos, max_pos, vocab_size) == Some(ModelError::EmptyInput) <==>
            tokens.len() == 0,
        tokens.len() > 0 && start_pos + tokens.len() > max_pos ==> run_error(
            tokens,
            start_pos,
            max_pos,
            vocab_size,
        ) == Some(
            ModelError::ContextExceeded { end_pos: (start_pos + tokens.len()) as usize, max_pos },
        ),
        forall|i: int|
            0 <= i < tokens.len() && start_pos + tokens.len() <= max_pos && #[trigger] tokens[i]
                >= vocab_size && (forall|j: int| 0 <= j < i ==> #[trigger] tokens[j] < vocab_size)
                ==> run_error(tokens, start_pos, max_pos, vocab_size) == Some(
                ModelError::TokenOutOfRange { token: tokens[i] as usize, vocab_size },
            ),
{
    law_known_tokens_are_accepted(tokens, vocab_size);
    lemma_token_error_kind(tokens, vocab_size);
    assert forall|i: int|
        0 <= i < tokens.len() && start_pos + tokens.len() <= max_pos && #[trigger] tokens[i]
            >= vocab_size && (forall|j: int| 0 <= j < i ==> #[trigger] tokens[j] < vocab_size)
        implies run_error(tokens, start_pos, max_pos, vocab_size) == Some(
        ModelError::TokenOutOfRange { token: tokens[i] as usize, vocab_size },
    ) by {
        law_first_unknown_token_is_named(tokens, vocab_size, i);
    }
}

proof fn lemma_token_error_kind(tokens: Seq<u32>, vocab_size: usize)
    ensures
        token_error(tokens, vocab_size) != Some(ModelError::EmptyInput),
    decreases tokens.len(),
{
    if tokens.len() > 0 {
        lemma_token_error_kind(tokens.drop_last(), vocab_size);
    }
}

/// The first buffer holds the embedding of each token in turn: element `d` of row `r` is
/// element `d` of the table's row for token `r`, with sixteen zeros behind it.
pub proof fn law_first_buffer_holds_the_embeddings(
    table: Seq<u16>,
    tokens: Seq<u32>,
    hidden_size: int,
    r: int,
    d: int,
)
    requires
        0 <= r < tokens.len(),
        0 <= d < hidden_size,
    ensures
        embedded(table, tokens, hidden_size).len() == tokens.len() * hidden_size,
        embedded(table, tokens, hidden_size)[r * hidden_size + d] == widened(
            table[tokens[r] * hidden_size + d],
        ),
        embedded(table, tokens, hidden_size)[r * hidden_size + d] == table[tokens[r] * hidden_size
            + d] * 0x1_0000,
{
    assert(0 <= r * hidden_size && r * hidden_size + hidden_size <= tokens.len() * hidden_size)
        by (nonlinear_arith)
        requires
            0 <= r < tokens.len(),
            0 < hidden_size,
    ;
    vstd::arithmetic::div_mod::lemma_fundamental_div_mod_converse(
        r * hidden_size + d,
        hidden_size,
        r,
        d,
    );
}

/// Two runs that hold different tokens at a place read different rows of the table
/// there: no element of the one row is an element of the other.
pub proof fn law_tokens_read_their_own_rows(a: u32, b: u32, hidden_size: int, d: int, e: int)
    requires
        a != b,
        0 <= d < hidden_size,
        0 <= e < hidden_size,
    ensures
        a * hidden_size + d != b * hidden_size + e,
{
    assert(a < b ==> a * hidden_size + hidden_size <= b * hidden_size) by (nonlinear_arith)
        requires
            hidden_size > 0,
    ;
    assert(b < a ==> b * hidden_size + hidden_size <= a * hidden_size) by (nonlinear_arith)
        requires
            hidden_size > 0,
    ;
}

/// The rows of a run do not depend on its other tokens: a run behind another has its rows
/// behind the other's.
pub proof fn law_rows_follow_the_tokens(
    table: Seq<u16>,
    first: Seq<u32>,
    second: Seq<u32>,
    hidden_size: int,
)
    requires
        hidden_size > 0,
    ensures
        embedded(table, first + second, hidden_size) == embedded(table, first, hidden_size)
            + embedded(table, second, hidden_size),
{
    let h = hidden_size;
    let n = first.len() as int;
    let m = second.len() as int;
    let both = embedded(table, first + second, h);
    let apart = embedded(table, first, h) + embedded(table, second, h);
    assert((n + m) * h == n * h + m * h && n * h >= 0 && m * h >= 0) by (nonlinear_arith)
        requires
            n >= 0,
            m >= 0,
            h > 0,
    ;
    assert forall|i: int| 0 <= i < both.len() implies #[trigger] both[i] == apart[i] by {
        vstd::arithmetic::div_mod::lemma_fundamental_div_mod(i, h);
        let q = i / h;
        let d = i % h;
        assert(h * q == q * h) by (nonlinear_arith);
        if i < n * h {
            assert(q < n) by (nonlinear_arith)
                requires
                    q * h + d < n * h,
                    0 <= d < h,
            ;
            assert(q >= 0) by (nonlinear_arith)
                requires
                    q * h + d >= 0,
                    0 <= d < h,
            ;
        } else {
            assert(q >= n) by (nonlinear_arith)
                requires
                    q * h + d >= n * h,
                    0 <= d < h,
            ;
            assert(q < n + m) by (nonlinear_arith)
                requires
                    q * h + d < n * h + m * h,
                    0 <= d < h,
            ;
            assert((q - n) * h == q * h - n * h) by (nonlinear_arith);
            vstd::arithmetic::div_mod::lemma_fundamental_div_mod_converse(i - n * h, h, q - n, d);
        }
    }
    assert(both =~= apart);
}

/// The run of a chunked prefill that starts with token `start`.
#[derive(Clone, Copy, Debug, PartialEq, Eq, Structural)]
pub struct Chunk {
    pub start: usize,
    pub end: usize,
    /// Whether the prompt ends with it: only then are its logits used.
    pub is_last: bool,
}

/// How many chunks a prompt is cut into.
pub open spec fn chunk_count(total: int, chunk_size: int) -> int {
    if chunk_size == 0 || chunk_size >= total {
        1
    } else {
        crate::arith::ceil_div(total, chunk_size)
    }
}

/// A chunk of a prompt.
pub open spec fn chunk_at(total: int, chunk_size: int, i: int) -> Chunk {
    if chunk_size == 0 || chunk_size >= total {
        Chunk { start: 0, end: total as usize, is_last: true }
    } else {
        let end = crate::arith::min_of((i + 1) * chunk_size, total);
        Chunk { start: (i * chunk_size) as usize, end: end as usize, is_last: end == total }
    }
}

/// What decoding one token reads.
#[derive(Clone, Copy, Debug, PartialEq, Eq, Structural)]
pub struct DecodePlan {
    /// The position of the token.
    pub pos: usize,
    /// Where the rotation of the position starts in the cache.
    pub rope_start: usize,
    pub rope_end: usize,
}

/// Whether a layer looks back a limited way: five of every six do.
pub open spec fn slides(layer_idx: int) -> bool {
    (layer_idx + 1) % 6 != 0
}

impl<F, D, W> GenericModel<F, D, W> {
    /// Every token has a row of embeddings.
    pub open spec fn has_embeddings(self) -> bool {
        self.config.vocab_size * self.config.hidden_size <= self.embed_tokens@.len()
    }

    /// The sizes of a pass on `seq_len` tokens are machine numbers.
    pub open spec fn can_run(self, seq_len: int) -> bool {
        &&& seq_len * self.config.hidden_size <= usize::MAX
        &&& self.decoder_layers@.len() + seq_len + 2 <= usize::MAX
    }

    /// Whether positions have three dimensions.
    pub fn is_mrope(&self) -> (b: bool)
        ensures
            b == (self.inv_freq@.len() > 0),
    {
        self.inv_freq.len() > 0
    }

    /// Whether a layer has rotations of its own for looking back a limited way.
    pub open spec fn spec_is_sliding_layer(self, layer_idx: int) -> bool {
        self.sliding_cos_cache@.len() > 0 && slides(layer_idx)
    }

    /// The rotations of a layer, cosines and sines.
    pub fn rope_cache_for_layer(&self, layer_idx: usize) -> (caches: (&Vec<F>, &Vec<F>))
        ensures
            *caches.0 == (if self.spec_is_sliding_layer(layer_idx as int) {
                self.sliding_cos_cache
            } else {
                self.cos_cache
            }),
            *caches.1 == (if self.spec_is_sliding_layer(layer_idx as int) {
                self.sliding_sin_cache
            } else {
                self.sin_cache
            }),
    {
        if self.sliding_cos_cache.len() > 0 && layer_idx % 6 != 5 {
            (&self.sliding_cos_cache, &self.sliding_sin_cache)
        } else {
            (&self.cos_cache, &self.sin_cache)
        }
    }

    /// The embeddings of all tokens.
    pub fn embed_tokens(&self) -> (table: &Vec<u16>)
        ensures
            *table == self.embed_tokens,
    {
        &self.embed_tokens
    }

    /// Copies the embedding of a token, widened to single precision, to the front of
    /// `dst`.
    pub fn embed_lookup(&self, token_idx: usize, dst: &mut [u32])
        requires
            (token_idx + 1) * self.config.hidden_size <= self.embed_tokens@.len(),
            self.config.hidden_size <= old(dst)@.len(),
        ensures
            final(dst)@.len() == old(dst)@.len(),
            forall|j: int|
                0 <= j < final(dst)@.len() ==> #[trigger] final(dst)@[j] == (if j
                    < self.config.hidden_size {
                    widened(self.embed_tokens@[token_idx * self.config.hidden_size + j])
                } else {
                    old(dst)@[j]
                }),
    {
        let h: usize = self.config.hidden_size;
        let ghost before = dst@;
        proof {
            assert((token_idx + 1) * h == token_idx * h + h) by (nonlinear_arith);
            assert(token_idx * h >= 0) by (nonlinear_arith);
        }
        let len: usize = self.embed_tokens.len();
        let start: usize = token_idx * h;
        let mut j: usize = 0;
        while j < h
            invariant
                j <= h == self.config.hidden_size,
                h <= dst@.len() == before.len(),
                start == token_idx * h,
                start + h <= len == self.embed_tokens@.len(),
                forall|i: int|
                    0 <= i < j ==> #[trigger] dst@[i] == widened(self.embed_tokens@[start + i]),
                forall|i: int| j <= i < dst@.len() ==> #[trigger] dst@[i] == before[i],
            decreases h - j,
        {
            dst[j] = bf16_to_f32_bits(self.embed_tokens[start + j]);
            j = j + 1;
        }
    }

    /// The embeddings of a run of tokens, or what is wrong with the first token that has
    /// none.
    pub fn embed_run(&self, tokens: &[u32]) -> (rows: Result<Vec<u32>, ModelError>)
        requires
            self.has_embeddings(),
            tokens@.len() * self.config.hidden_size <= usize::MAX,
        ensures
            match token_error(tokens@, self.config.vocab_size) {
                Some(e) => rows == Err::<Vec<u32>, ModelError>(e),
                None => rows is Ok && rows->Ok_0@ == embedded(
                    self.embed_tokens@,
                    tokens@,
                    self.config.hidden_size as int,
                ),
            },
    {
        let h: usize = self.config.hidden_size;
        let vocab: usize = self.config.vocab_size;
        let count: usize = tokens.len();
        let mut t: usize = 0;
        while t < count
            invariant
                t <= count == tokens@.len(),
                vocab == self.config.vocab_size,
                token_error(tokens@.take(t as int), vocab) is None,
            decreases count - t,
        {
            let ghost head = tokens@.take(t + 1);
            proof {
                assert(head.drop_last() =~= tokens@.take(t as int));
                assert(head.last() == tokens@[t as int]);
            }
            let token: u32 = tokens[t];
            if token as usize >= vocab {
                proof {
                    lemma_error_stays(tokens@, t + 1, vocab);
                }
                return Err(
                    ModelError::TokenOutOfRange { token: token as usize, vocab_size: vocab },
                );
            }
            t = t + 1;
        }
        proof {
            assert(tokens@.take(count as int) =~= tokens@);
            law_known_tokens_are_accepted(tokens@, vocab);
        }
        let mut rows: Vec<u32> = Vec::new();
        let mut r: usize = 0;
        let ghost want = embedded(self.embed_tokens@, tokens@, h as int);
        proof {
            assert(0 * h == 0) by (nonlinear_arith);
        }
        while r < count
            invariant
                r <= count == tokens@.len(),
                h == self.config.hidden_size,
                vocab == self.config.vocab_size,
                self.has_embeddings(),
                count * h <= usize::MAX,
                forall|i: int| 0 <= i < tokens@.len() ==> #[trigger] tokens@[i] < vocab,
                want == embedded(self.embed_tokens@, tokens@, h as int),
                rows@.len() == r * h,
                forall|i: int| 0 <= i < rows@.len() ==> #[trigger] rows@[i] == want[i],
            decreases count - r,
        {
            let token: usize = tokens[r] as usize;
            let table: usize = self.embed_tokens.len();
            proof {
                assert(tokens@[r as int] < vocab);
                assert(token * h + h <= vocab * h && 0 <= token * h) by (nonlinear_arith)
                    requires
                        0 <= token < vocab,
                        h >= 0,
                ;
                assert((r + 1) * h == r * h + h && (r + 1) * h <= count * h) by (nonlinear_arith)
                    requires
                        0 <= r < count,
                        h >= 0,
                ;
            }
            let start: usize = token * h;
            let mut j: usize = 0;
            while j < h
                invariant
                    j <= h == self.config.hidden_size,
                    r < count == tokens@.len(),
                    token == tokens@[r as int],
                    start == token * h,
                    start + h <= table == self.embed_tokens@.len(),
                    want == embedded(self.embed_tokens@, tokens@, h as int),
                    rows@.len() == r * h + j,
                    (r + 1) * h == r * h + h,
                    (r + 1) * h <= count * h,
                    forall|i: int| 0 <= i < rows@.len() ==> #[trigger] rows@[i] == want[i],
                decreases h - j,
            {
                let ghost at = r * h + j;
                proof {
                    vstd::arithmetic::div_mod::lemma_fundamental_div_mod_converse(
                        at,
                        h as int,
                        r as int,
                        j as int,
                    );
                    assert(want[at] == widened(self.embed_tokens@[start + j]));
                }
                rows.push(bf16_to_f32_bits(self.embed_tokens[start + j]));
                j = j + 1;
            }
            r = r + 1;
        }
        proof {
            assert(rows@ =~= want);
        }
        Ok(rows)
    }

    /// Starts a prefill: the pass to run, and what its first buffer holds.
    pub fn prefill_with_token(&self, input_tokens: &[u32], start_pos: usize) -> (started: Result<
        (Pass, Vec<u32>),
        ModelError,
    >)
        requires
            self.has_embeddings(),
            self.can_run(input_tokens@.len() as int),
            start_pos + input_tokens@.len() <= usize::MAX,
        ensures
            match run_error(
                input_tokens@,
                start_pos as int,
                self.config.max_position_embeddings,
                self.config.vocab_size,
            ) {
                Some(e) => started == Err::<(Pass, Vec<u32>), ModelError>(e),
                None => started is Ok && started->Ok_0.0 == self.pass(
                    input_tokens@.len() as int,
                    start_pos as int,
                    RopeSource::OfLayer,
                    PassOutput::LastLogits,
                ) && started->Ok_0.0.wf() && started->Ok_0.1@ == embedded(
                    self.embed_tokens@,
                    input_tokens@,
                    self.config.hidden_size as int,
                ),
            },
    {
        self.start_run(input_tokens, start_pos, RopeSource::OfLayer, PassOutput::LastLogits)
    }

    /// Starts a pass on a run of tokens.
    fn start_run(&self, tokens: &[u32], start_pos: usize, rope: RopeSource, output: PassOutput) -> (
    started: Result<(Pass, Vec<u32>), ModelError>)
        requires
            self.has_embeddings(),
            self.can_run(tokens@.len() as int),
            start_pos + tokens@.len() <= usize::MAX,
        ensures
            match run_error(
                tokens@,
                start_pos as int,
                self.config.max_position_embeddings,
                self.config.vocab_size,
            ) {
                Some(e) => started == Err::<(Pass, Vec<u32>), ModelError>(e),
                None => started is Ok && started->Ok_0.0 == self.pass(
                    tokens@.len() as int,
                    start_pos as int,
                    rope,
                    output,
                ) && started->Ok_0.0.wf() && started->Ok_0.1@ == embedded(
                    self.embed_tokens@,
                    tokens@,
                    self.config.hidden_size as int,
                ),
            },
    {
        let seq_len: usize = tokens.len();
        let max_pos: usize = self.config.max_position_embeddings;
        if seq_len == 0 {
            return Err(ModelError::EmptyInput);
        }
        let end_pos: usize = start_pos + seq_len;
        if end_pos > max_pos {
            return Err(ModelError::ContextExceeded { end_pos, max_pos });
        }
        match self.embed_run(tokens) {
            Err(e) => Err(e),
            Ok(rows) => Ok((self.new_pass(seq_len, start_pos, rope, output), rows)),
        }
    }

    /// A pass before its first action.
    pub open spec fn pass(
        self,
        seq_len: int,
        start_pos: int,
        rope: RopeSource,
        output: PassOutput,
    ) -> Pass {
        Pass {
            seq_len: seq_len as usize,
            start_pos: start_pos as usize,
            num_layers: self.decoder_layers@.len() as usize,
            rope,
            output,
            step: 0,
        }
    }

    /// Starts checking draft tokens: the pass to run, which gives the logits of every
    /// token, and what its first buffer holds.
    pub fn verify_draft_tokens(&self, draft_tokens: &[u32], start_pos: usize) -> (started: Result<
        (Pass, Vec<u32>),
        ModelError,
    >)
        requires
            self.has_embeddings(),
            self.can_run(draft_tokens@.len() as int),
            start_pos + draft_tokens@.len() <= usize::MAX,
        ensures
            match run_error(
                draft_tokens@,
                start_pos as int,
                self.config.max_position_embeddings,
                self.config.vocab_size,
            ) {
                Some(e) => started == Err::<(Pass, Vec<u32>), ModelError>(e),
                None => started is Ok && started->Ok_0.0 == self.pass(
                    draft_tokens@.len() as int,
                    start_pos as int,
                    RopeSource::OfLayer,
                    PassOutput::AllLogits,
                ) && started->Ok_0.0.wf() && started->Ok_0.1@ == embedded(
                    self.embed_tokens@,
                    draft_tokens@,
                    self.config.hidden_size as int,
                ),
            },
    {
        self.start_run(draft_tokens, start_pos, RopeSource::OfLayer, PassOutput::AllLogits)
    }

    /// Starts checking draft tokens whose positions have three dimensions.
    pub fn verify_draft_tokens_mrope(
        &self,
        draft_tokens: &[u32],
        num_positions: usize,
        start_pos: usize,
    ) -> (started: Result<(Pass, Vec<u32>), ModelError>)
        requires
            self.has_embeddings(),
            self.can_run(draft_tokens@.len() as int),
            start_pos + draft_tokens@.len() <= usize::MAX,
        ensures
            draft_tokens@.len() > 0 && num_positions != draft_tokens@.len() ==> started == Err::<
                (Pass, Vec<u32>),
                ModelError,
            >(
                ModelError::PositionsMismatch {
                    positions: num_positions,
                    tokens: draft_tokens@.len() as usize,
                },
            ),
            draft_tokens@.len() == 0 || num_positions == draft_tokens@.len() ==> match run_error(
                draft_tokens@,
                start_pos as int,
                self.config.max_position_embeddings,
                self.config.vocab_size,
            ) {
                Some(e) => started == Err::<(Pass, Vec<u32>), ModelError>(e),
                None => started is Ok && started->Ok_0.0 == self.pass(
                    draft_tokens@.len() as int,
                    start_pos as int,
                    RopeSource::Positions,
                    PassOutput::AllLogits,
                ) && started->Ok_0.0.wf() && started->Ok_0.1@ == embedded(
                    self.embed_tokens@,
                    draft_tokens@,
                    self.config.hidden_size as int,
                ),
            },
    {
        let tokens: usize = draft_tokens.len();
        if tokens > 0 && num_positions != tokens {
            return Err(ModelError::PositionsMismatch { positions: num_positions, tokens });
        }
        self.start_run(draft_tokens, start_pos, RopeSource::Positions, PassOutput::AllLogits)
    }

    /// Starts a prefill on embeddings whose positions have three dimensions.
    pub fn prefill_with_embeds_mrope(
        &self,
        embeds_len: usize,
        num_positions: usize,
        start_pos: usize,
    ) -> (started: Result<Pass, ModelError>)
        requires
            self.can_run(num_positions as int),
            start_pos + num_positions <= usize::MAX,
        ensures
            started == (if num_positions == 0 {
                Err::<Pass, ModelError>(ModelError::EmptyInput)
            } else if start_pos + num_positions > self.config.max_position_embeddings {
                Err(
                    ModelError::ContextExceeded {
                        end_pos: (start_pos + num_positions) as usize,
                        max_pos: self.config.max_position_embeddings,
                    },
                )
            } else if embeds_len != num_positions * self.config.hidden_size {
                Err(
                    ModelError::EmbedsMismatch {
                        len: embeds_len,
                        seq_len: num_positions,
                        hidden_size: self.config.hidden_size,
                    },
                )
            } else {
                Ok(
                    self.pass(
                        num_positions as int,
                        start_pos as int,
                        RopeSource::Positions,
                        PassOutput::LastLogits,
                    ),
                )
            }),
            started matches Ok(pass) ==> pass.wf(),
    {
        let max_pos: usize = self.config.max_position_embeddings;
        let hidden_size: usize = self.config.hidden_size;
        if num_positions == 0 {
            return Err(ModelError::EmptyInput);
        }
        let end_pos: usize = start_pos + num_positions;
        if end_pos > max_pos {
            return Err(ModelError::ContextExceeded { end_pos, max_pos });
        }
        proof {
            assert(num_positions * hidden_size >= 0) by (nonlinear_arith);
        }
        if embeds_len != num_positions * hidden_size {
            return Err(
                ModelError::EmbedsMismatch { len: embeds_len, seq_len: num_positions, hidden_size },
            );
        }
        Ok(self.new_pass(num_positions, start_pos, RopeSource::Positions, PassOutput::LastLogits))
    }

    /// Starts a prefill on embeddings that stand at successive positions.
    pub fn prefill_with_embeds(&self, embeds_len: usize, start_pos: usize) -> (started: Result<
        Pass,
        ModelError,
    >)
        requires
            self.config.hidden_size > 0,
            self.can_run(embeds_len as int / self.config.hidden_size as int),
            start_pos + embeds_len as int / self.config.hidden_size as int <= usize::MAX,
        ensures
            ({
                let hidden = self.config.hidden_size;
                let seq_len = embeds_len as int / hidden as int;
                started == (if embeds_len < hidden {
                    Err::<Pass, ModelError>(ModelError::EmptyInput)
                } else if embeds_len as int % hidden as int != 0 {
                    Err(ModelError::EmbedsNotDivisible { len: embeds_len, hidden_size: hidden })
                } else if start_pos + seq_len > self.config.max_position_embeddings {
                    Err(
                        ModelError::ContextExceeded {
                            end_pos: (start_pos + seq_len) as usize,
                            max_pos: self.config.max_position_embeddings,
                        },
                    )
                } else {
                    Ok(
                        self.pass(
                            seq_len,
                            start_pos as int,
                            RopeSource::OfLayer,
                            PassOutput::LastLogits,
                        ),
                    )
                })
            }),
            started matches Ok(pass) ==> pass.wf(),
    {
        let max_pos: usize = self.config.max_position_embeddings;
        let hidden_size: usize = self.config.hidden_size;
        let seq_len: usize = embeds_len / hidden_size;
        proof {
            vstd::arithmetic::div_mod::lemma_fundamental_div_mod(
                embeds_len as int,
                hidden_size as int,
            );
            if embeds_len < hidden_size {
                vstd::arithmetic::div_mod::lemma_basic_div(embeds_len as int, hidden_size as int);
            } else {
                vstd::arithmetic::div_mod::lemma_div_non_zero(
                    embeds_len as int,
                    hidden_size as int,
                );
            }
        }
        if seq_len == 0 {
            return Err(ModelError::EmptyInput);
        }
        if embeds_len % hidden_size != 0 {
            return Err(ModelError::EmbedsNotDivisible { len: embeds_len, hidden_size });
        }
        let end_pos: usize = start_pos + seq_len;
        if end_pos > max_pos {
            return Err(ModelError::ContextExceeded { end_pos, max_pos });
        }
        Ok(self.new_pass(seq_len, start_pos, RopeSource::OfLayer, PassOutput::LastLogits))
    }

    /// Starts a pass for the hidden state of the last token. The cache stays as it is.
    pub fn prefill_for_embedding(&self, input_tokens: &[u32]) -> (started: Result<
        (Pass, Vec<u32>),
        ModelError,
    >)
        requires
            self.has_embeddings(),
            self.can_run(input_tokens@.len() as int),
        ensures
            match run_error(
                input_tokens@,
                0,
                self.config.max_position_embeddings,
                self.config.vocab_size,
            ) {
                Some(e) => started == Err::<(Pass, Vec<u32>), ModelError>(e),
                None => started is Ok && started->Ok_0.0 == self.pass(
                    input_tokens@.len() as int,
                    0,
                    if self.inv_freq@.len() > 0 {
                        RopeSource::Positions
                    } else {
                        RopeSource::Main
                    },
                    PassOutput::LastHidden,
                ) && started->Ok_0.0.wf() && started->Ok_0.1@ == embedded(
                    self.embed_tokens@,
                    input_tokens@,
                    self.config.hidden_size as int,
                ),
            },
    {
        let _len: usize = input_tokens.len();
        let rope: RopeSource = if self.is_mrope() {
            RopeSource::Positions
        } else {
            RopeSource::Main
        };
        self.start_run(input_tokens, 0, rope, PassOutput::LastHidden)
    }

    /// Starts a pass for the hidden states of all tokens. Until it settles, attention
    /// looks both ways where `bidirectional` says so.
    pub fn prefill_all_embeddings(
        &self,
        input_tokens: &[u32],
        kv: &mut KvStore<F>,
        bidirectional: bool,
    ) -> (started: Result<(Pass, Vec<u32>), ModelError>)
        requires
            self.has_embeddings(),
            self.can_run(input_tokens@.len() as int),
        ensures
            match run_error(
                input_tokens@,
                0,
                self.config.max_position_embeddings,
                self.config.vocab_size,
            ) {
                Some(e) => started == Err::<(Pass, Vec<u32>), ModelError>(e),
                None => started is Ok && started->Ok_0.0 == self.pass(
                    input_tokens@.len() as int,
                    0,
                    RopeSource::Main,
                    PassOutput::AllHidden,
                ) && started->Ok_0.0.wf() && started->Ok_0.1@ == embedded(
                    self.embed_tokens@,
                    input_tokens@,
                    self.config.hidden_size as int,
                ),
            },
            *final(kv) == (KvStore {
                bidirectional: match started {
                    Ok(_) => bidirectional,
                    Err(ModelError::TokenOutOfRange { .. }) => false,
                    Err(_) => old(kv).bidirectional,
                },
                ..*old(kv)
            }),
    {
        let _len: usize = input_tokens.len();
        let started: Result<(Pass, Vec<u32>), ModelError> = self.start_run(
            input_tokens,
            0,
            RopeSource::Main,
            PassOutput::AllHidden,
        );
        match &started {
            Ok(_) => {
                kv.bidirectional = bidirectional;
            },
            Err(ModelError::TokenOutOfRange { .. }) => {
                kv.bidirectional = false;
            },
            Err(_) => {},
        }
        started
    }

    /// Starts a prefill whose layers run in two phases. It starts as a prefill in one
    /// phase does, and fails where that fails.
    pub fn prefill_with_token_decomposed(&self, input_tokens: &[u32], start_pos: usize) -> (started:
        Result<(Pass, Vec<u32>), ModelError>)
        requires
            self.has_embeddings(),
            self.can_run(input_tokens@.len() as int),
            start_pos + input_tokens@.len() <= usize::MAX,
        ensures
            match run_error(
                input_tokens@,
                start_pos as int,
                self.config.max_position_embeddings,
                self.config.vocab_size,
            ) {
                Some(e) => started == Err::<(Pass, Vec<u32>), ModelError>(e),
                None => started is Ok && started->Ok_0.0 == self.pass(
                    input_tokens@.len() as int,
                    start_pos as int,
                    RopeSource::OfLayer,
                    PassOutput::LastLogits,
                ) && started->Ok_0.0.wf() && started->Ok_0.1@ == embedded(
                    self.embed_tokens@,
                    input_tokens@,
                    self.config.hidden_size as int,
                ),
            },
    {
        self.start_run(input_tokens, start_pos, RopeSource::OfLayer, PassOutput::LastLogits)
    }

    /// Cuts a prompt into chunks, each of which is then a prefill of its own behind the
    /// chunks before it. A chunk size of 0, or one as long as the prompt, gives one chunk.
    pub fn prefill_with_token_chunked(
        &self,
        total_tokens: usize,
        kv_len: usize,
        chunk_size: usize,
    ) -> (chunks: Result<Vec<Chunk>, ModelError>)
        requires
            kv_len + total_tokens <= usize::MAX,
        ensures
            kv_len + total_tokens > self.config.max_position_embeddings ==> chunks == Err::<
                Vec<Chunk>,
                ModelError,
            >(
                ModelError::ContextExceeded {
                    end_pos: (kv_len + total_tokens) as usize,
                    max_pos: self.config.max_position_embeddings,
                },
            ),
            kv_len + total_tokens <= self.config.max_position_embeddings ==> chunks is Ok
                && chunks->Ok_0@ == Seq::new(
                chunk_count(total_tokens as int, chunk_size as int) as nat,
                |i: int| chunk_at(total_tokens as int, chunk_size as int, i),
            ),
    {
        let max_pos: usize = self.config.max_position_embeddings;
        let end_pos: usize = kv_len + total_tokens;
        if end_pos > max_pos {
            return Err(ModelError::ContextExceeded { end_pos, max_pos });
        }
        Ok(cut_into_chunks(total_tokens, chunk_size))
    }

    /// Starts decoding one token: its position, and where its rotation stands.
    pub fn decode_step(&self, token: u32, kv_len: usize) -> (plan: Result<DecodePlan, ModelError>)
        ensures
            plan == (if kv_len >= self.config.max_position_embeddings {
                Err::<DecodePlan, ModelError>(
                    ModelError::PositionExceeded {
                        pos: kv_len,
                        max_pos: self.config.max_position_embeddings,
                    },
                )
            } else if token >= self.config.vocab_size {
                Err(
                    ModelError::TokenOutOfRange {
                        token: token as usize,
                        vocab_size: self.config.vocab_size,
                    },
                )
            } else if (kv_len + 1) * (self.config.rotary_ndims as int / 2) > usize::MAX {
                Err(ModelError::RopeIndexOverflow)
            } else if (kv_len + 1) * (self.config.rotary_ndims as int / 2) > self.cos_cache@.len()
                || (kv_len + 1) * (self.config.rotary_ndims as int / 2) > self.sin_cache@.len() {
                Err(
                    ModelError::RopeCacheExceeded {
                        pos: kv_len,
                        max_pos: self.config.max_position_embeddings,
                    },
                )
            } else {
                Ok(
                    DecodePlan {
                        pos: kv_len,
                        rope_start: (kv_len * (self.config.rotary_ndims as int / 2)) as usize,
                        rope_end: ((kv_len + 1) * (self.config.rotary_ndims as int / 2)) as usize,
                    },
                )
            }),
    {
        let max_pos: usize = self.config.max_position_embeddings;
        let vocab_size: usize = self.config.vocab_size;
        if kv_len >= max_pos {
            return Err(ModelError::PositionExceeded { pos: kv_len, max_pos });
        }
        if token as usize >= vocab_size {
            return Err(ModelError::TokenOutOfRange { token: token as usize, vocab_size });
        }
        let half: usize = self.config.rotary_ndims / 2;
        proof {
            assert((kv_len + 1) * half == kv_len * half + half && kv_len * half >= 0)
                by (nonlinear_arith);
        }
        match kv_len.checked_mul(half) {
            None => Err(ModelError::RopeIndexOverflow),
            Some(rope_start) => match rope_start.checked_add(half) {
                None => Err(ModelError::RopeIndexOverflow),
                Some(rope_end) => {
                    if rope_end > self.cos_cache.len() || rope_end > self.sin_cache.len() {
                        Err(ModelError::RopeCacheExceeded { pos: kv_len, max_pos })
                    } else {
                        Ok(DecodePlan { pos: kv_len, rope_start, rope_end })
                    }
                },
            },
        }
    }

    /// Starts decoding one token whose position has three dimensions: its place in the
    /// cache.
    pub fn decode_step_mrope(&self, token: u32, kv_len: usize) -> (pos: Result<usize, ModelError>)
        ensures
            pos == (if kv_len >= self.config.max_position_embeddings {
                Err::<usize, ModelError>(
                    ModelError::PositionExceeded {
                        pos: kv_len,
                        max_pos: self.config.max_position_embeddings,
                    },
                )
            } else if token >= self.config.vocab_size {
                Err(
                    ModelError::TokenOutOfRange {
                        token: token as usize,
                        vocab_size: self.config.vocab_size,
                    },
                )
            } else {
                Ok(kv_len)
            }),
    {
        let max_pos: usize = self.config.max_position_embeddings;
        let vocab_size: usize = self.config.vocab_size;
        if kv_len >= max_pos {
            return Err(ModelError::PositionExceeded { pos: kv_len, max_pos });
        }
        if token as usize >= vocab_size {
            return Err(ModelError::TokenOutOfRange { token: token as usize, vocab_size });
        }
        Ok(kv_len)
    }

    /// A pass before its first action.
    fn new_pass(&self, seq_len: usize, start_pos: usize, rope: RopeSource, output: PassOutput) -> (
    pass: Pass)
        requires
            seq_len > 0,
            self.can_run(seq_len as int),
        ensures
            pass == self.pass(seq_len as int, start_pos as int, rope, output),
            pass.wf(),
    {
        Pass { seq_len, start_pos, num_layers: self.decoder_layers.len(), rope, output, step: 0 }
    }
}

impl<F: Copy, D, W> GenericModel<F, D, W> {
    /// An empty cache in the sixteen-bit format.
    pub fn create_kv_cache(&self, reserve_tokens: Option<usize>, pool_workers: usize, zero: F) -> (
    cache: CpuKvCache<F>)
        requires
            state_fits(&self.config),
            reserve_tokens matches Some(n) ==> n * self.config.head_dim <= usize::MAX,
        ensures
            cache.is_fresh(&self.config, KvQuantType::BF16, pool_workers, zero),
            cache.kv@.wf(),
            layers_have_room(
                cache.kv.layer_data@,
                reserve_of(reserve_tokens),
                self.config.head_dim as int,
            ),
    {
        CpuKvCache::new(&self.config, reserve_tokens, pool_workers, zero)
    }

    /// An empty cache in a given format.
    pub fn create_kv_cache_with_quant(
        &self,
        reserve_tokens: Option<usize>,
        kv_quant: KvQuantType,
        pool_workers: usize,
        zero: F,
    ) -> (cache: CpuKvCache<F>)
        requires
            state_fits(&self.config),
            reserve_tokens matches Some(n) ==> n * self.config.head_dim <= usize::MAX,
        ensures
            cache.is_fresh(&self.config, kv_quant, pool_workers, zero),
            cache.kv@.wf(),
            layers_have_room(
                cache.kv.layer_data@,
                reserve_of(reserve_tokens),
                self.config.head_dim as int,
            ),
    {
        CpuKvCache::new_with_quant(&self.config, reserve_tokens, kv_quant, pool_workers, zero)
    }
}

/// Cuts `total` tokens into chunks.
fn cut_into_chunks(total: usize, chunk_size: usize) -> (chunks: Vec<Chunk>)
    ensures
        chunks@ == Seq::new(
            chunk_count(total as int, chunk_size as int) as nat,
            |i: int| chunk_at(total as int, chunk_size as int, i),
        ),
{
    let mut chunks: Vec<Chunk> = Vec::new();
    let ghost want = Seq::new(
        chunk_count(total as int, chunk_size as int) as nat,
        |i: int| chunk_at(total as int, chunk_size as int, i),
    );
    if chunk_size == 0 || chunk_size >= total {
        chunks.push(Chunk { start: 0, end: total, is_last: true });
        proof {
            assert(chunks@ =~= want);
        }
        return chunks;
    }
    let ghost count = chunk_count(total as int, chunk_size as int);
    proof {
        lemma_chunk_bounds(total as int, chunk_size as int);
        assert(0 * chunk_size == 0) by (nonlinear_arith);
    }
    let mut start: usize = 0;
    while start < total
        invariant
            0 < chunk_size < total,
            count == chunk_count(total as int, chunk_size as int),
            (count - 1) * chunk_size < total <= count * chunk_size,
            want.len() == count,
            want == Seq::new(
                count as nat,
                |i: int| chunk_at(total as int, chunk_size as int, i),
            ),
            chunks@.len() <= count,
            start == crate::arith::min_of(chunks@.len() * chunk_size, total as int),
            forall|i: int| 0 <= i < chunks@.len() ==> #[trigger] chunks@[i] == want[i],
        decreases total - start,
    {
        let ghost i = chunks@.len() as int;
        proof {
            assert((i + 1) * chunk_size == i * chunk_size + chunk_size) by (nonlinear_arith);
            if i >= count {
                assert(false);
            }
        }
        let end: usize = if total - start <= chunk_size {
            total
        } else {
            start + chunk_size
        };
        chunks.push(Chunk { start, end, is_last: end == total });
        start = end;
    }
    proof {
        let n = chunks@.len() as int;
        if n < count {
            assert(n * chunk_size <= (count - 1) * chunk_size) by (nonlinear_arith)
                requires
                    n <= count - 1,
                    chunk_size > 0,
            ;
        }
        assert(chunks@ =~= want);
    }
    chunks
}

/// All chunks but the last fit before the end of the prompt, and the last reaches it.
proof fn lemma_chunk_bounds(total: int, chunk_size: int)
    requires
        0 < chunk_size < total,
    ensures
        ({
            let count = chunk_count(total, chunk_size);
            &&& count >= 1
            &&& (count - 1) * chunk_size < total
            &&& total <= count * chunk_size
        }),
{
    let count = chunk_count(total, chunk_size);
    vstd::arithmetic::div_mod::lemma_fundamental_div_mod(total, chunk_size);
    let q = total / chunk_size;
    let r = total % chunk_size;
    assert(q >= 1) by (nonlinear_arith)
        requires
            total == chunk_size * q + r,
            0 <= r < chunk_size,
            total > chunk_size > 0,
    ;
    assert((count - 1) * chunk_size < total && total <= count * chunk_size) by (nonlinear_arith)
        requires
            total == chunk_size * q + r,
            0 <= r < chunk_size,
            (r == 0 && count == q) || (r > 0 && count == q + 1),
    ;
}

/// The chunks follow one another without a gap, the first starts at the first token,
/// and only the last reaches the end of the prompt. No chunk is longer than asked for,
/// and none is empty.
pub proof fn law_chunks_cover_the_prompt(total: int, chunk_size: int, i: int)
    requires
        0 <= chunk_size,
        0 < total <= usize::MAX,
        0 <= i < chunk_count(total, chunk_size),
    ensures
        chunk_at(total, chunk_size, 0).start == 0,
        i + 1 < chunk_count(total, chunk_size) ==> chunk_at(total, chunk_size, i).end == chunk_at(
            total,
            chunk_size,
            i + 1,
        ).start,
        chunk_at(total, chunk_size, i).start < chunk_at(total, chunk_size, i).end <= total,
        chunk_size > 0 ==> chunk_at(total, chunk_size, i).end - chunk_at(total, chunk_size, i).start
            <= chunk_size,
        chunk_at(total, chunk_size, i).is_last <==> i + 1 == chunk_count(total, chunk_size),
        chunk_at(total, chunk_size, i).is_last <==> chunk_at(total, chunk_size, i).end == total,
{
    if 0 < chunk_size < total {
        lemma_chunk_bounds(total, chunk_size);
        let count = chunk_count(total, chunk_size);
        assert(0 * chunk_size == 0) by (nonlinear_arith);
        assert((i + 1) * chunk_size == i * chunk_size + chunk_size && 0 <= i * chunk_size)
            by (nonlinear_arith)
            requires
                0 <= i,
                0 < chunk_size,
        ;
        assert((i + 2) * chunk_size == (i + 1) * chunk_size + chunk_size) by (nonlinear_arith);
        assert(i * chunk_size <= (count - 1) * chunk_size) by (nonlinear_arith)
            requires
                i <= count - 1,
                chunk_size > 0,
        ;
        if i + 1 < count {
            assert((i + 1) * chunk_size <= (count - 1) * chunk_size) by (nonlinear_arith)
                requires
                    i + 1 <= count - 1,
                    chunk_size > 0,
            ;
        }
    }
}

/// Every chunk but the last is as long as asked for; without a size, or with one as long
/// as the prompt, the whole prompt is one chunk.
pub proof fn law_chunks_are_full(total: int, chunk_size: int, i: int)
    requires
        0 <= chunk_size,
        0 <= total <= usize::MAX,
        0 <= i < chunk_count(total, chunk_size),
    ensures
        i + 1 < chunk_count(total, chunk_size) ==> chunk_at(total, chunk_size, i).end - chunk_at(
            total,
            chunk_size,
            i,
        ).start == chunk_size,
        chunk_size == 0 || chunk_size >= total ==> chunk_count(total, chunk_size) == 1 && chunk_at(
            total,
            chunk_size,
            0,
        ) == (Chunk { start: 0, end: total as usize, is_last: true }),
        0 < chunk_size < total ==> chunk_count(total, chunk_size) > 1,
{
    if 0 < chunk_size < total {
        lemma_chunk_bounds(total, chunk_size);
        let count = chunk_count(total, chunk_size);
        assert(count > 1) by (nonlinear_arith)
            requires
                total <= count * chunk_size,
                0 < chunk_size < total,
                count >= 1,
        ;
        assert((i + 1) * chunk_size == i * chunk_size + chunk_size && 0 <= i * chunk_size)
            by (nonlinear_arith)
            requires
                0 <= i,
                0 < chunk_size,
        ;
        if i + 1 < count {
            assert((i + 1) * chunk_size <= (count - 1) * chunk_size) by (nonlinear_arith)
                requires
                    i + 1 <= count - 1,
                    chunk_size > 0,
            ;
        }
    }
}

/// Of every six layers in a row, counted from the first, the first five look back a
/// limited way and the sixth does not. Where all layers share one cache, none does.
pub proof fn law_five_of_six_layers_slide<F, D, W>(model: GenericModel<F, D, W>, k: int, r: int)
    requires
        0 <= k,
        0 <= r < 6,
    ensures
        model.sliding_cos_cache@.len() > 0 ==> (model.spec_is_sliding_layer(6 * k + r) <==> r < 5),
        model.sliding_cos_cache@.len() == 0 ==> !model.spec_is_sliding_layer(6 * k + r),
{
}

// ---------------------------------------------------------------------------
// Behind a decoded token
// ---------------------------------------------------------------------------

/// Counts a decoded token: one more position, and one more step of the text where
/// positions have three dimensions.
pub fn count_decoded<F>(kv: &mut KvStore<F>, mrope: bool)
    requires
        old(kv).seq_len < usize::MAX,
        mrope ==> old(kv).text_pos < u32::MAX,
    ensures
        *final(kv) == (KvStore {
            seq_len: (old(kv).seq_len + 1) as usize,
            text_pos: if mrope {
                (old(kv).text_pos + 1) as u32
            } else {
                old(kv).text_pos
            },
            ..*old(kv)
        }),
{
    kv.seq_len = kv.seq_len + 1;
    if mrope {
        kv.text_pos = kv.text_pos + 1;
    }
}

/// Keeps a copy of the output of a layer in every slot that asks for the layer, where
/// hidden states are captured at all.
pub fn capture_hidden<F: Copy>(ctx: &mut InferenceContext<F>, layer_idx: usize, x: &Vec<F>)
    ensures
        forall|slot: int|
            0 <= slot < 3 ==> (#[trigger] final(ctx).eagle3_hidden_states@[slot])@ == (if old(
                ctx,
            ).eagle3_active && old(ctx).eagle3_extract_layers@[slot] == layer_idx {
                x@
            } else {
                old(ctx).eagle3_hidden_states@[slot]@
            }),
        *final(ctx) == (InferenceContext {
            eagle3_hidden_states: final(ctx).eagle3_hidden_states,
            ..*old(ctx)
        }),
{
    if ctx.eagle3_active {
        if ctx.eagle3_extract_layers[0] == layer_idx {
            ctx.eagle3_hidden_states[0] = copy_vec(x);
        }
        if ctx.eagle3_extract_layers[1] == layer_idx {
            ctx.eagle3_hidden_states[1] = copy_vec(x);
        }
        if ctx.eagle3_extract_layers[2] == layer_idx {
            ctx.eagle3_hidden_states[2] = copy_vec(x);
        }
    }
}

/// A token without an embedding is the first one also in a longer run.
proof fn lemma_error_stays(tokens: Seq<u32>, n: int, vocab_size: usize)
    requires
        0 <= n <= tokens.len(),
        token_error(tokens.take(n), vocab_size) is Some,
    ensures
        token_error(tokens, vocab_size) == token_error(tokens.take(n), vocab_size),
    decreases tokens.len(),
{
    if n < tokens.len() {
        assert(tokens.drop_last().take(n) =~= tokens.take(n));
        lemma_error_stays(tokens.drop_last(), n, vocab_size);
    } else {
        assert(tokens.take(n) =~= tokens);
    }
}

} // verus!
