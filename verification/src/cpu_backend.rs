//! The backend around a model: how it is set up, how a prompt meets what is already
//! cached, and how the cache is cut back.

use vstd::prelude::*;

use crate::arith::{max_of, min_of};
use crate::config::Config;
use crate::generic_model::DeepStackInfo;
use crate::h2o::{evicts_at, hysteresis};
use crate::kv_cache::{
    cut, vec_contents, InferenceContext, KvContents, KvQuantType, KvStore,
};
use crate::text::{parse_usize, usize_of};

verus! {

/// Why a backend does not answer.
#[derive(Clone, Copy, Debug, PartialEq, Eq, Structural)]
pub enum BackendStateError {
    ModelNotLoaded,
    ConfigNotLoaded,
    /// Hidden states are not captured.
    ExtractionInactive,
    /// There is not one place for each image.
    ImagesMismatch { images: usize, positions: usize },
}

// ---------------------------------------------------------------------------
// Setting up
// ---------------------------------------------------------------------------

/// What a backend is told when it loads a model.
#[derive(Clone, Copy, Debug, PartialEq, Eq, Structural)]
pub struct LoadSettings {
    pub num_threads: Option<usize>,
    /// The most workers for decoding; 0 for no cap.
    pub decode_threads: Option<usize>,
    pub prefill_chunk_size: Option<usize>,
    pub kv_reserve_tokens: Option<usize>,
    pub show_progress: bool,
    pub kv_quant: KvQuantType,
    /// How many positions the cache keeps before it evicts.
    pub kv_budget: Option<usize>,
}

/// How the threads of a backend are set up.
#[derive(Clone, Copy, Debug, PartialEq, Eq, Structural)]
pub struct ThreadPlan {
    /// The size to give the pool, where one was asked for.
    pub num_threads: Option<usize>,
    /// The most workers for decoding; 0 for no cap.
    pub decode_max_workers: usize,
    pub prefill_chunk_size: usize,
}

/// The number of threads asked for: by the setting, else by the environment. A value
/// that is no number, or is 0, asks for none.
pub open spec fn threads_asked(setting: Option<usize>, env: Option<Seq<char>>) -> Option<usize> {
    let asked = match setting {
        Some(n) => Some(n),
        None => match env {
            Some(text) => usize_of(text),
            None => None,
        },
    };
    match asked {
        Some(n) => if n > 0 {
            Some(n)
        } else {
            None
        },
        None => None,
    }
}

/// The number of threads asked for.
pub fn requested_threads(setting: Option<usize>, env: Option<&str>) -> (threads: Option<usize>)
    ensures
        threads == threads_asked(
            setting,
            match env {
                Some(text) => Some(text@),
                None => None,
            },
        ),
{
    let asked: Option<usize> = match setting {
        Some(n) => Some(n),
        None => match env {
            Some(text) => parse_usize(text),
            None => None,
        },
    };
    match asked {
        Some(n) => if n > 0 {
            Some(n)
        } else {
            None
        },
        None => None,
    }
}

/// The most workers for decoding: as set, else two thirds of the threads, from 1 to 8.
pub open spec fn decode_cap(setting: Option<usize>, threads: int) -> int {
    match setting {
        Some(n) => n as int,
        None => min_of(max_of(threads * 2 / 3, 1), 8),
    }
}

/// The most workers for decoding.
pub fn decode_worker_cap(setting: Option<usize>, threads: usize) -> (cap: usize)
    requires
        threads * 2 <= usize::MAX,
    ensures
        cap == decode_cap(setting, threads as int),
{
    match setting {
        Some(n) => n,
        None => {
            let share: usize = threads * 2 / 3;
            if share < 1 {
                1
            } else if share > 8 {
                8
            } else {
                share
            }
        },
    }
}

/// A backend: the model and its description once loaded, a cache of prompts where one
/// is kept, and the settings.
pub struct GenericCpuBackend<M, P> {
    pub model: Option<M>,
    pub config: Option<Config>,
    pub kv_reserve_tokens: Option<usize>,
    pub show_progress: bool,
    pub prefix_cache: Option<P>,
    pub kv_quant: KvQuantType,
    pub kv_budget: Option<usize>,
}

impl<M, P> GenericCpuBackend<M, P> {
    /// A backend that has loaded nothing.
    pub open spec fn is_empty(self) -> bool {
        &&& self.model is None
        &&& self.config is None
        &&& self.kv_reserve_tokens is None
        &&& !self.show_progress
        &&& self.prefix_cache is None
        &&& self.kv_quant is BF16
        &&& self.kv_budget is None
    }

    /// A backend that has loaded nothing.
    pub fn new() -> (backend: Self)
        ensures
            backend.is_empty(),
    {
        GenericCpuBackend {
            model: None,
            config: None,
            kv_reserve_tokens: None,
            show_progress: false,
            prefix_cache: None,
            kv_quant: KvQuantType::BF16,
            kv_budget: None,
        }
    }

    /// Takes over the settings of a load and says how the threads are to be set up.
    /// `available` is the number of threads that the machine offers.
    pub fn load(&mut self, settings: &LoadSettings, env_threads: Option<&str>, available: usize) -> (
    plan: ThreadPlan)
        requires
            settings.decode_threads is None ==> {
                let asked = threads_asked(
                    settings.num_threads,
                    match env_threads {
                        Some(text) => Some(text@),
                        None => None,
                    },
                );
                match asked {
                    Some(n) => n * 2 <= usize::MAX,
                    None => available * 2 <= usize::MAX,
                }
            },
        ensures
            ({
                let asked = threads_asked(
                    settings.num_threads,
                    match env_threads {
                        Some(text) => Some(text@),
                        None => None,
                    },
                );
                &&& plan.num_threads == asked
                &&& plan.decode_max_workers == decode_cap(
                    settings.decode_threads,
                    match asked {
                        Some(n) => n as int,
                        None => available as int,
                    },
                )
                &&& plan.prefill_chunk_size == match settings.prefill_chunk_size {
                    Some(n) => n,
                    None => 0,
                }
            }),
            *final(self) == (GenericCpuBackend {
                kv_reserve_tokens: settings.kv_reserve_tokens,
                show_progress: settings.show_progress,
                kv_quant: settings.kv_quant,
                kv_budget: settings.kv_budget,
                ..*old(self)
            }),
    {
        let num_threads: Option<usize> = requested_threads(settings.num_threads, env_threads);
        let decode_max_workers: usize = match settings.decode_threads {
            Some(n) => n,
            None => decode_worker_cap(
                None,
                match num_threads {
                    Some(n) => n,
                    None => available,
                },
            ),
        };
        let prefill_chunk_size: usize = match settings.prefill_chunk_size {
            Some(n) => n,
            None => 0,
        };
        self.kv_reserve_tokens = settings.kv_reserve_tokens;
        self.show_progress = settings.show_progress;
        self.kv_quant = settings.kv_quant;
        self.kv_budget = settings.kv_budget;
        ThreadPlan { num_threads, decode_max_workers, prefill_chunk_size }
    }

    /// The model, once it is loaded.
    pub fn loaded_model(&self) -> (model: Result<&M, BackendStateError>)
        ensures
            match self.model {
                Some(m) => model is Ok && *model->Ok_0 == m,
                None => model == Err::<&M, BackendStateError>(BackendStateError::ModelNotLoaded),
            },
    {
        match &self.model {
            Some(m) => Ok(m),
            None => Err(BackendStateError::ModelNotLoaded),
        }
    }

    /// The description of the model, once it is loaded.
    pub fn loaded_config(&self) -> (config: Result<&Config, BackendStateError>)
        ensures
            match self.config {
                Some(c) => config is Ok && *config->Ok_0 == c,
                None => config == Err::<&Config, BackendStateError>(
                    BackendStateError::ConfigNotLoaded,
                ),
            },
    {
        match &self.config {
            Some(c) => Ok(c),
            None => Err(BackendStateError::ConfigNotLoaded),
        }
    }
}

/// A backend that answers several requests at once: what the requests share.
pub struct ConcurrentBackend<M, P> {
    pub model: M,
    pub config: Config,
    pub kv_quant: KvQuantType,
    pub kv_reserve_tokens: Option<usize>,
    pub prefix_cache: Option<P>,
}

impl<M, P> ConcurrentBackend<M, P> {
    /// Takes over a backend that has loaded its model.
    pub fn from_loaded_backend(backend: GenericCpuBackend<M, P>) -> (taken: Result<
        Self,
        BackendStateError,
    >)
        ensures
            backend.model is None ==> taken == Err::<Self, BackendStateError>(
                BackendStateError::ModelNotLoaded,
            ),
            backend.model is Some && backend.config is None ==> taken == Err::<
                Self,
                BackendStateError,
            >(BackendStateError::ConfigNotLoaded),
            backend.model is Some && backend.config is Some ==> taken == Ok::<
                Self,
                BackendStateError,
            >(
                ConcurrentBackend {
                    model: backend.model->Some_0,
                    config: backend.config->Some_0,
                    kv_quant: backend.kv_quant,
                    kv_reserve_tokens: backend.kv_reserve_tokens,
                    prefix_cache: backend.prefix_cache,
                },
            ),
    {
        match backend.model {
            None => Err(BackendStateError::ModelNotLoaded),
            Some(model) => match backend.config {
                None => Err(BackendStateError::ConfigNotLoaded),
                Some(config) => Ok(
                    ConcurrentBackend {
                        model,
                        config,
                        kv_quant: backend.kv_quant,
                        kv_reserve_tokens: backend.kv_reserve_tokens,
                        prefix_cache: backend.prefix_cache,
                    },
                ),
            },
        }
    }

    /// The description of the model.
    pub fn config(&self) -> (config: &Config)
        ensures
            *config == self.config,
    {
        &self.config
    }
}

/// For how many positions a new cache has room: for the prompt and for the tokens that
/// the backend, else the request, expects to decode.
pub fn reserve_for(
    kv_reserve_tokens: Option<usize>,
    decode_tokens: Option<usize>,
    prompt_len: usize,
) -> (room: Option<usize>)
    ensures
        room == match (kv_reserve_tokens, decode_tokens) {
            (Some(n), _) => Some(min_of(prompt_len + n, usize::MAX as int) as usize),
            (None, Some(n)) => Some(min_of(prompt_len + n, usize::MAX as int) as usize),
            (None, None) => None,
        },
{
    let hint: Option<usize> = match kv_reserve_tokens {
        Some(n) => Some(n),
        None => decode_tokens,
    };
    match hint {
        Some(n) => Some(prompt_len.saturating_add(n)),
        None => None,
    }
}

// ---------------------------------------------------------------------------
// Prompts and what is cached of them
// ---------------------------------------------------------------------------

/// How a prompt is prefilled.
#[derive(Clone, Copy, Debug, PartialEq, Eq, Structural)]
pub enum PrefillRun {
    /// From a token on; the tokens before it are cached.
    From { start: usize },
    /// All of it is cached: the last token is dropped from the cache and run again, for
    /// its logits.
    LastAgain { trim_to: usize },
    /// In chunks.
    Chunked { chunk_size: usize },
    /// In one go.
    Whole,
}

/// How a prompt is prefilled, and what is kept of it for later prompts.
#[derive(Clone, Copy, Debug, PartialEq, Eq, Structural)]
pub struct PrefillPlan {
    pub run: PrefillRun,
    /// Whether positions have three dimensions.
    pub mrope: bool,
    /// How many leading tokens are stored as a system prefix.
    pub save_system: Option<usize>,
    /// Whether the whole prompt is stored.
    pub save_prompt: bool,
}

/// How a prompt of `len` tokens is prefilled of which `hit_len` are cached.
pub open spec fn run_for(mrope: bool, hit_len: int, len: int, chunk_size: usize) -> PrefillRun {
    if 0 < hit_len < len {
        PrefillRun::From { start: hit_len as usize }
    } else if hit_len > 0 {
        PrefillRun::LastAgain { trim_to: (hit_len - 1) as usize }
    } else if !mrope && chunk_size > 0 {
        PrefillRun::Chunked { chunk_size }
    } else {
        PrefillRun::Whole
    }
}

/// Decides how a prompt is prefilled.
pub fn plan_prefill(
    mrope: bool,
    hit_len: usize,
    len: usize,
    chunk_size: usize,
    system_prefix_len: Option<usize>,
    has_prefix_cache: bool,
) -> (plan: PrefillPlan)
    requires
        hit_len <= len,
    ensures
        plan.run == run_for(mrope, hit_len as int, len as int, chunk_size),
        plan.mrope == mrope,
        plan.save_prompt == (hit_len == 0 && has_prefix_cache),
        plan.save_system == (if hit_len == 0 && has_prefix_cache {
            match system_prefix_len {
                Some(n) => if 0 < n < len {
                    Some(n)
                } else {
                    None
                },
                None => None,
            }
        } else {
            None
        }),
{
    if hit_len > 0 {
        let run: PrefillRun = if hit_len < len {
            PrefillRun::From { start: hit_len }
        } else {
            PrefillRun::LastAgain { trim_to: hit_len - 1 }
        };
        return PrefillPlan { run, mrope, save_system: None, save_prompt: false };
    }
    let run: PrefillRun = if !mrope && chunk_size > 0 {
        PrefillRun::Chunked { chunk_size }
    } else {
        PrefillRun::Whole
    };
    let save_system: Option<usize> = match system_prefix_len {
        Some(n) => if has_prefix_cache && 0 < n && n < len {
            Some(n)
        } else {
            None
        },
        None => None,
    };
    PrefillPlan { run, mrope, save_system, save_prompt: has_prefix_cache }
}

impl PrefillPlan {
    /// The first token that is run.
    pub open spec fn first_token(self) -> int {
        match self.run {
            PrefillRun::From { start } => start as int,
            PrefillRun::LastAgain { trim_to } => trim_to as int,
            PrefillRun::Chunked { .. } => 0,
            PrefillRun::Whole => 0,
        }
    }

    /// The first token that is run.
    pub fn start(&self) -> (start: usize)
        ensures
            start == self.first_token(),
    {
        match self.run {
            PrefillRun::From { start } => start,
            PrefillRun::LastAgain { trim_to } => trim_to,
            PrefillRun::Chunked { .. } => 0,
            PrefillRun::Whole => 0,
        }
    }
}

/// Whatever is cached, a prefill runs at least the last token of the prompt, starts at
/// a token that the prompt has, and leaves no token out: what it does not run is cached.
pub proof fn law_every_token_is_run_or_cached(
    mrope: bool,
    hit_len: int,
    len: int,
    chunk_size: usize,
    save_system: Option<usize>,
    save_prompt: bool,
)
    requires
        0 <= hit_len <= len <= usize::MAX,
        len > 0,
    ensures
        ({
            let plan = PrefillPlan {
                run: run_for(mrope, hit_len, len, chunk_size),
                mrope,
                save_system,
                save_prompt,
            };
            &&& 0 <= plan.first_token() < len
            &&& plan.first_token() <= hit_len
            &&& hit_len < len ==> plan.first_token() == hit_len
            &&& hit_len == len ==> plan.first_token() == len - 1
        }),
{
}

impl<F> KvContents<F> {
    /// The store after every layer was cut to its first `positions` positions, which are
    /// then all it counts.
    pub open spec fn cut_all(self, positions: int) -> Self {
        let flat = positions * self.kv_dim;
        KvContents {
            layers: Seq::new(
                self.layers.len(),
                |i: int| self.layers[i].cut_to(positions, self.head_dim as int),
            ),
            keys: if self.kv_quant is BF16 {
                Seq::new(self.keys.len(), |i: int| cut(self.keys[i], flat))
            } else {
                self.keys
            },
            values: if self.kv_quant is BF16 {
                Seq::new(self.values.len(), |i: int| cut(self.values[i], flat))
            } else {
                self.values
            },
            seq_len: positions as usize,
            ..self
        }
    }
}

/// Cuts every layer to its first `positions` positions and counts that many.
fn cut_every_layer<F: Copy>(kv: &mut KvStore<F>, positions: usize)
    requires
        old(kv)@.wf(),
        positions * old(kv).head_dim <= usize::MAX,
        positions * old(kv).kv_dim <= usize::MAX,
    ensures
        final(kv)@ == old(kv)@.cut_all(positions as int),
        final(kv)@.wf(),
        *final(kv) == (KvStore {
            layer_data: final(kv).layer_data,
            keys: final(kv).keys,
            values: final(kv).values,
            seq_len: positions,
            ..*old(kv)
        }),
{
    let ghost before = kv@;
    let ghost start = *kv;
    let ghost after = before.cut_all(positions as int);
    let count: usize = kv.layer_data.len();
    let mut l: usize = 0;
    while l < count
        invariant
            l <= count == before.layers.len(),
            before.wf(),
            after == before.cut_all(positions as int),
            before == start@,
            kv@.wf(),
            positions * kv.head_dim <= usize::MAX,
            positions * kv.kv_dim <= usize::MAX,
            *kv == (KvStore {
                layer_data: kv.layer_data,
                keys: kv.keys,
                values: kv.values,
                ..start
            }),
            kv@.layers.len() == kv@.keys.len() == kv@.values.len() == count,
            forall|i: int| 0 <= i < l ==> #[trigger] kv@.layers[i] == after.layers[i],
            forall|i: int| l <= i < count ==> #[trigger] kv@.layers[i] == before.layers[i],
            forall|i: int| 0 <= i < l ==> #[trigger] kv@.keys[i] == after.keys[i],
            forall|i: int| l <= i < count ==> #[trigger] kv@.keys[i] == before.keys[i],
            forall|i: int| 0 <= i < l ==> #[trigger] kv@.values[i] == after.values[i],
            forall|i: int| l <= i < count ==> #[trigger] kv@.values[i] == before.values[i],
        decreases count - l,
    {
        kv.truncate_to(l, positions);
        l = l + 1;
    }
    kv.seq_len = positions;
    proof {
        assert(kv@.layers =~= after.layers);
        assert(kv@.keys =~= after.keys);
        assert(kv@.values =~= after.values);
    }
}

/// How far the text has come when the cache is ready for a prefill.
pub open spec fn readied_text(plan: PrefillPlan, text_pos: u32) -> u32 {
    if plan.mrope && (plan.run is From || plan.run is LastAgain) {
        plan.first_token() as u32
    } else {
        text_pos
    }
}

/// Readies the cache for a prefill: where all of the prompt is cached, its last position
/// is dropped; where positions have three dimensions, the text goes on behind what is
/// cached.
pub fn ready_cache<F: Copy>(plan: &PrefillPlan, kv: &mut KvStore<F>)
    requires
        old(kv)@.wf(),
        plan.mrope ==> plan.first_token() <= u32::MAX,
        plan.run is LastAgain ==> plan.first_token() * old(kv).head_dim <= usize::MAX
            && plan.first_token() * old(kv).kv_dim <= usize::MAX,
    ensures
        final(kv)@ == (if plan.run is LastAgain {
            old(kv)@.cut_all(plan.first_token())
        } else {
            old(kv)@
        }),
        final(kv)@.wf(),
        final(kv).text_pos == readied_text(*plan, old(kv).text_pos),
        *final(kv) == (KvStore {
            layer_data: final(kv).layer_data,
            keys: final(kv).keys,
            values: final(kv).values,
            seq_len: final(kv).seq_len,
            text_pos: final(kv).text_pos,
            ..*old(kv)
        }),
{
    match plan.run {
        PrefillRun::From { start } => {
            if plan.mrope {
                kv.text_pos = start as u32;
            }
        },
        PrefillRun::LastAgain { trim_to } => {
            cut_every_layer(kv, trim_to);
            if plan.mrope {
                kv.text_pos = trim_to as u32;
            }
        },
        PrefillRun::Chunked { .. } => {},
        PrefillRun::Whole => {},
    }
}

/// Counts the tokens of a run: where positions have three dimensions, the text has come
/// that much further.
pub fn count_text<F>(kv: &mut KvStore<F>, mrope: bool, count: usize)
    requires
        mrope ==> old(kv).text_pos + count <= u32::MAX,
    ensures
        *final(kv) == (KvStore {
            text_pos: if mrope {
                (old(kv).text_pos + count) as u32
            } else {
                old(kv).text_pos
            },
            ..*old(kv)
        }),
{
    if mrope {
        kv.text_pos = kv.text_pos + count as u32;
    }
}

/// When a prompt has been run, its text has come as far as the prompt is long, whatever
/// of it was cached: readying the cache and counting the tokens that were run make up
/// the prompt's length.
pub proof fn law_text_follows_the_prompt(
    plan: PrefillPlan,
    hit_len: int,
    len: int,
    chunk_size: usize,
)
    requires
        0 <= hit_len <= len <= u32::MAX,
        plan.mrope,
        plan.run == run_for(true, hit_len, len, chunk_size),
    ensures
        readied_text(plan, 0) + (len - plan.first_token()) == len,
{
}

/// The positions of a run of text, from `first` on.
pub fn text_positions(first: u32, count: usize) -> (positions: Vec<u32>)
    requires
        first + count <= u32::MAX,
    ensures
        positions@ == Seq::new(count as nat, |i: int| (first + i) as u32),
{
    let mut positions: Vec<u32> = Vec::new();
    let mut i: usize = 0;
    while i < count
        invariant
            i <= count,
            first + count <= u32::MAX,
            positions@.len() == i,
            forall|j: int| 0 <= j < i ==> #[trigger] positions@[j] == (first + j) as u32,
        decreases count - i,
    {
        positions.push(first + i as u32);
        i = i + 1;
    }
    proof {
        assert(positions@ =~= Seq::new(count as nat, |i: int| (first + i) as u32));
    }
    positions
}

/// Cuts the cache back to `target_len` positions, where it has more. The text goes back
/// by as many steps, though not behind its start.
pub fn truncate_kv<F: Copy>(kv: &mut KvStore<F>, target_len: usize)
    requires
        old(kv)@.wf(),
        old(kv).seq_len > target_len ==> target_len * old(kv).head_dim <= usize::MAX && target_len
            * old(kv).kv_dim <= usize::MAX,
    ensures
        old(kv).seq_len <= target_len ==> *final(kv) == *old(kv),
        old(kv).seq_len > target_len ==> {
            &&& final(kv)@ == old(kv)@.cut_all(target_len as int)
            &&& final(kv).text_pos == max_of(
                old(kv).text_pos - (old(kv).seq_len - target_len),
                0,
            )
            &&& *final(kv) == (KvStore {
                layer_data: final(kv).layer_data,
                keys: final(kv).keys,
                values: final(kv).values,
                seq_len: target_len,
                text_pos: final(kv).text_pos,
                ..*old(kv)
            })
        },
        final(kv)@.wf(),
{
    if kv.seq_len > target_len {
        let removed: usize = kv.seq_len - target_len;
        cut_every_layer(kv, target_len);
        kv.text_pos = if removed < kv.text_pos as usize {
            kv.text_pos - removed as u32
        } else {
            0
        };
    }
}

/// Whether the cache has outgrown its budget by so much that it evicts.
pub fn should_evict(kv_budget: Option<usize>, seq_len: usize) -> (evict: bool)
    requires
        kv_budget matches Some(budget) ==> budget + min_of(budget as int / 8, 512) <= usize::MAX,
    ensures
        evict == match kv_budget {
            Some(budget) => evicts_at(budget as int, seq_len as int),
            None => false,
        },
{
    match kv_budget {
        Some(budget) => seq_len > budget + hysteresis(budget),
        None => false,
    }
}

// ---------------------------------------------------------------------------
// Hidden states for a draft head
// ---------------------------------------------------------------------------

/// Starts capturing the hidden states of three layers.
pub fn enable_eagle3_extraction<F>(ctx: &mut InferenceContext<F>, extract_layers: [usize; 3])
    ensures
        *final(ctx) == (InferenceContext {
            eagle3_active: true,
            eagle3_extract_layers: extract_layers,
            ..*old(ctx)
        }),
{
    ctx.eagle3_active = true;
    ctx.eagle3_extract_layers = extract_layers;
}

/// Takes the captured hidden states out of the context.
pub fn take_eagle3_hidden_states<F>(ctx: &mut InferenceContext<F>) -> (states: Result<
    [Vec<F>; 3],
    BackendStateError,
>)
    ensures
        !old(ctx).eagle3_active ==> states == Err::<[Vec<F>; 3], BackendStateError>(
            BackendStateError::ExtractionInactive,
        ) && *final(ctx) == *old(ctx),
        old(ctx).eagle3_active ==> {
            &&& states is Ok
            &&& states->Ok_0@ == old(ctx).eagle3_hidden_states@
            &&& forall|slot: int|
                0 <= slot < 3 ==> (#[trigger] final(ctx).eagle3_hidden_states@[slot])@ == Seq::<
                    F,
                >::empty()
            &&& *final(ctx) == (InferenceContext {
                eagle3_hidden_states: final(ctx).eagle3_hidden_states,
                ..*old(ctx)
            })
        },
{
    if !ctx.eagle3_active {
        return Err(BackendStateError::ExtractionInactive);
    }
    let mut taken: [Vec<F>; 3] = [Vec::new(), Vec::new(), Vec::new()];
    core::mem::swap(&mut taken, &mut ctx.eagle3_hidden_states);
    Ok(taken)
}

// ---------------------------------------------------------------------------
// Images
// ---------------------------------------------------------------------------

/// The sum of some numbers.
pub open spec fn total_of(counts: Seq<usize>) -> int
    decreases counts.len(),
{
    if counts.len() == 0 {
        0
    } else {
        total_of(counts.drop_last()) + counts.last()
    }
}

/// The sum of the first numbers is no greater than the sum of all.
proof fn lemma_total_grows(counts: Seq<usize>, n: int)
    requires
        0 <= n <= counts.len(),
    ensures
        0 <= total_of(counts.take(n)) <= total_of(counts),
    decreases counts.len(),
{
    if n < counts.len() {
        lemma_total_grows(counts.drop_last(), n);
        assert(counts.drop_last().take(n) =~= counts.take(n));
    } else {
        assert(counts.take(n) =~= counts);
        if n > 0 {
            lemma_total_grows(counts.drop_last(), n - 1);
            assert(counts.drop_last().take(n - 1) =~= counts.drop_last());
        }
    }
}

/// How many tokens of a prompt are text: those that belong to no image.
pub fn text_token_count(total_len: usize, image_tokens: &[usize]) -> (count: usize)
    requires
        total_of(image_tokens@) <= total_len,
    ensures
        count == total_len - total_of(image_tokens@),
{
    let mut sum: usize = 0;
    let mut i: usize = 0;
    while i < image_tokens.len()
        invariant
            i <= image_tokens@.len(),
            total_of(image_tokens@) <= total_len,
            sum == total_of(image_tokens@.take(i as int)),
        decreases image_tokens@.len() - i,
    {
        proof {
            lemma_total_grows(image_tokens@, i + 1);
            assert(image_tokens@.take(i + 1).drop_last() =~= image_tokens@.take(i as int));
        }
        sum = sum + image_tokens[i];
        i = i + 1;
    }
    proof {
        assert(image_tokens@.take(i as int) =~= image_tokens@);
    }
    total_len - sum
}

/// The numbers from `start` up to `end`.
pub open spec fn counted(start: int, end: int) -> Seq<usize> {
    Seq::new(max_of(end - start, 0) as nat, |i: int| (start + i) as usize)
}

/// The places of all image tokens, image after image.
pub open spec fn image_places(ranges: Seq<(usize, usize)>) -> Seq<usize>
    decreases ranges.len(),
{
    if ranges.len() == 0 {
        Seq::empty()
    } else {
        image_places(ranges.drop_last()) + counted(ranges.last().0 as int, ranges.last().1 as int)
    }
}

/// The places of all image tokens. Each image has the tokens from the first number of
/// its pair up to the second.
pub fn image_token_indices(ranges: &[(usize, usize)]) -> (places: Vec<usize>)
    ensures
        places@ == image_places(ranges@),
{
    let mut places: Vec<usize> = Vec::new();
    let mut i: usize = 0;
    while i < ranges.len()
        invariant
            i <= ranges@.len(),
            places@ == image_places(ranges@.take(i as int)),
        decreases ranges@.len() - i,
    {
        let start: usize = ranges[i].0;
        let end: usize = ranges[i].1;
        let ghost before = places@;
        let mut t: usize = start;
        while t < end
            invariant
                start <= t,
                t <= end || t == start,
                places@ == before + counted(start as int, t as int),
            decreases end - t,
        {
            places.push(t);
            t = t + 1;
            proof {
                assert(places@ =~= before + counted(start as int, t as int));
            }
        }
        proof {
            assert(counted(start as int, t as int) =~= counted(start as int, end as int));
            assert(ranges@.take(i + 1).drop_last() =~= ranges@.take(i as int));
            assert(ranges@.take(i + 1).last() == ranges@[i as int]);
        }
        i = i + 1;
    }
    proof {
        assert(ranges@.take(i as int) =~= ranges@);
    }
    places
}

/// The features of the first `n` images for a layer, one behind the other. An image
/// without features for the layer adds nothing.
pub open spec fn features_of<F>(images: Seq<Vec<Vec<F>>>, layer: int, n: int) -> Seq<F>
    decreases n,
{
    if n <= 0 {
        Seq::empty()
    } else {
        let before = features_of(images, layer, n - 1);
        if layer < images[n - 1]@.len() {
            before + images[n - 1]@[layer]@
        } else {
            before
        }
    }
}

/// The most layers for which any of the first `n` images has features.
pub open spec fn feature_layers<F>(images: Seq<Vec<Vec<F>>>, n: int) -> int
    decreases n,
{
    if n <= 0 {
        0
    } else {
        max_of(feature_layers(images, n - 1), images[n - 1]@.len() as int)
    }
}

/// Adds the elements of `more` behind those of `all`.
fn append_all<F: Copy>(all: &mut Vec<F>, more: &Vec<F>)
    ensures
        final(all)@ == old(all)@ + more@,
{
    let ghost before = all@;
    let mut i: usize = 0;
    while i < more.len()
        invariant
            i <= more@.len(),
            all@ == before + more@.take(i as int),
        decreases more@.len() - i,
    {
        all.push(more[i]);
        i = i + 1;
        proof {
            assert(all@ =~= before + more@.take(i as int));
        }
    }
    proof {
        assert(more@.take(i as int) =~= more@);
    }
}

/// Brings the features of all images together, layer by layer.
pub fn combine_deepstack<F: Copy>(images: &[Vec<Vec<F>>]) -> (layers: Vec<Vec<F>>)
    ensures
        vec_contents(layers@) == Seq::new(
            feature_layers(images@, images@.len() as int) as nat,
            |l: int| features_of(images@, l, images@.len() as int),
        ),
{
    let count: usize = images.len();
    let mut most: usize = 0;
    let mut i: usize = 0;
    while i < count
        invariant
            i <= count == images@.len(),
            most == feature_layers(images@, i as int),
        decreases count - i,
    {
        if images[i].len() > most {
            most = images[i].len();
        }
        i = i + 1;
    }
    let mut layers: Vec<Vec<F>> = Vec::new();
    let mut l: usize = 0;
    while l < most
        invariant
            l <= most,
            count == images@.len(),
            layers@.len() == l,
            forall|k: int|
                0 <= k < l ==> (#[trigger] layers@[k])@ == features_of(images@, k, count as int),
        decreases most - l,
    {
        let mut combined: Vec<F> = Vec::new();
        let mut j: usize = 0;
        while j < count
            invariant
                j <= count == images@.len(),
                combined@ == features_of(images@, l as int, j as int),
            decreases count - j,
        {
            if l < images[j].len() {
                append_all(&mut combined, &images[j][l]);
            }
            j = j + 1;
        }
        layers.push(combined);
        l = l + 1;
    }
    proof {
        assert(vec_contents(layers@) =~= Seq::new(
            feature_layers(images@, count as int) as nat,
            |l: int| features_of(images@, l, count as int),
        ));
    }
    layers
}

/// One image of a prompt.
pub struct VisionEmbedding<F> {
    /// How many tokens of the prompt the image takes.
    pub num_tokens: usize,
    /// For each of the first layers, the features of the image's tokens.
    pub deepstack_features: Vec<Vec<F>>,
}

/// What the images of a prompt mean for its prefill.
pub struct VlPlan<F> {
    /// Where the text stands behind the prompt.
    pub text_pos: usize,
    /// What is added to the output of the first layers.
    pub deepstack: Option<DeepStackInfo<F>>,
}

/// The features of every image.
pub open spec fn all_features<F>(images: Seq<VisionEmbedding<F>>) -> Seq<Vec<Vec<F>>> {
    Seq::new(images.len(), |i: int| images[i].deepstack_features)
}

/// The token counts of every image.
pub open spec fn all_counts<F>(images: Seq<VisionEmbedding<F>>) -> Seq<usize> {
    Seq::new(images.len(), |i: int| images[i].num_tokens)
}

/// Works out what the images of a prompt mean for its prefill. `ranges` says which
/// tokens each image has. Features are added only where positions have three
/// dimensions, and only where some image has any.
pub fn prefill_vl<F: Copy>(
    total_len: usize,
    images: Vec<VisionEmbedding<F>>,
    ranges: &[(usize, usize)],
    mrope: bool,
) -> (plan: Result<VlPlan<F>, BackendStateError>)
    requires
        images@.len() == ranges@.len() ==> total_of(all_counts(images@)) <= total_len,
    ensures
        images@.len() != ranges@.len() ==> plan == Err::<VlPlan<F>, BackendStateError>(
            BackendStateError::ImagesMismatch {
                images: images@.len() as usize,
                positions: ranges@.len() as usize,
            },
        ),
        images@.len() == ranges@.len() ==> {
            let features = all_features(images@);
            let layers = feature_layers(features, features.len() as int);
            &&& plan is Ok
            &&& plan->Ok_0.text_pos == total_len - total_of(all_counts(images@))
            &&& plan->Ok_0.deepstack is Some <==> mrope && layers > 0
            &&& plan->Ok_0.deepstack matches Some(info) ==> {
                &&& info.image_token_indices@ == image_places(ranges@)
                &&& vec_contents(info.layer_features@) == Seq::new(
                    layers as nat,
                    |l: int| features_of(features, l, features.len() as int),
                )
            }
        },
{
    let positions: usize = ranges.len();
    let count: usize = images.len();
    if count != positions {
        return Err(BackendStateError::ImagesMismatch { images: count, positions });
    }
    let ghost seen = images@;
    let mut counts: Vec<usize> = Vec::new();
    let mut features: Vec<Vec<Vec<F>>> = Vec::new();
    for image in it: images
        invariant
            it.seq() == seen,
            counts@.len() == features@.len() == it.index(),
            forall|i: int| 0 <= i < counts@.len() ==> #[trigger] counts@[i] == seen[i].num_tokens,
            forall|i: int|
                0 <= i < features@.len() ==> #[trigger] features@[i] == seen[i].deepstack_features,
    {
        counts.push(image.num_tokens);
        features.push(image.deepstack_features);
    }
    proof {
        assert(counts@ =~= all_counts(seen));
        assert(features@ =~= all_features(seen));
    }
    let text_pos: usize = text_token_count(total_len, counts.as_slice());
    if !mrope {
        return Ok(VlPlan { text_pos, deepstack: None });
    }
    let layer_features: Vec<Vec<F>> = combine_deepstack(features.as_slice());
    proof {
        assert(vec_contents(layer_features@).len() == layer_features@.len());
    }
    if layer_features.len() == 0 {
        return Ok(VlPlan { text_pos, deepstack: None });
    }
    let image_token_indices: Vec<usize> = image_token_indices(ranges);
    Ok(
        VlPlan {
            text_pos,
            deepstack: Some(DeepStackInfo { image_token_indices, layer_features }),
        },
    )
}

// ---------------------------------------------------------------------------
// Settings, plans and places
// ---------------------------------------------------------------------------

/// The number of threads is the one that was set, or else the one in the environment; a
/// number of 0, and a text that is no number, ask for nothing.
pub proof fn law_settings_come_before_the_environment(
    setting: Option<usize>,
    env: Option<Seq<char>>,
)
    ensures
        setting matches Some(n) ==> (n > 0 ==> threads_asked(setting, env) == Some(n)) && (n == 0
            ==> threads_asked(setting, env) is None),
        setting is None && env is None ==> threads_asked(setting, env) is None,
        setting is None && env is Some && usize_of(env->0) is None ==> threads_asked(setting, env)
            is None,
        setting is None && env is Some ==> (usize_of(env->0) matches Some(n) ==> (n > 0
            ==> threads_asked(setting, env) == Some(n)) && (n == 0 ==> threads_asked(
            setting,
            env,
        ) is None)),
{
}

/// Decoding is capped as set. Where nothing is set, the cap is two thirds of the threads,
/// rounded down, but at least 1 and at most 8.
pub proof fn law_decode_cap_is_two_thirds(setting: Option<usize>, threads: int)
    requires
        threads >= 0,
    ensures
        setting matches Some(n) ==> decode_cap(setting, threads) == n,
        setting is None ==> {
            let cap = decode_cap(setting, threads);
            &&& 1 <= cap <= 8
            &&& cap < 8 ==> 2 * threads < 3 * (cap + 1)
            &&& cap > 1 ==> 3 * cap <= 2 * threads
        },
{
}

/// A new backend has no model, no configuration and no cache, and asks for nothing.
pub proof fn law_new_backend_has_nothing<M, P>(backend: GenericCpuBackend<M, P>)
    requires
        backend.is_empty(),
    ensures
        backend.model is None && backend.config is None && backend.prefix_cache is None,
        backend.kv_reserve_tokens is None && backend.kv_budget is None,
        !backend.show_progress,
        backend.kv_quant is BF16,
{
}

/// A prompt of which a part is cached is run from behind it; one that is cached whole has
/// its last token run again; one of which nothing is cached is run in chunks where they
/// were asked for and positions have one dimension, and else in one go.
pub proof fn law_cached_tokens_are_not_run_again(
    mrope: bool,
    hit_len: int,
    len: int,
    chunk_size: usize,
)
    requires
        0 <= hit_len <= len <= usize::MAX,
    ensures
        0 < hit_len < len ==> run_for(mrope, hit_len, len, chunk_size) == (PrefillRun::From {
            start: hit_len as usize,
        }),
        0 < hit_len == len ==> run_for(mrope, hit_len, len, chunk_size) == (PrefillRun::LastAgain {
            trim_to: (len - 1) as usize,
        }),
        hit_len == 0 && !mrope && chunk_size > 0 ==> run_for(mrope, hit_len, len, chunk_size) == (
        PrefillRun::Chunked { chunk_size }),
        hit_len == 0 && (mrope || chunk_size == 0) ==> run_for(mrope, hit_len, len, chunk_size)
            == PrefillRun::Whole,
{
}

/// A run starts where it says, and one that says nothing at the first token.
pub proof fn law_runs_start_where_they_say(plan: PrefillPlan, text_pos: u32)
    requires
        0 <= plan.first_token() <= u32::MAX,
    ensures
        plan.run matches PrefillRun::From { start } ==> plan.first_token() == start,
        plan.run matches PrefillRun::LastAgain { trim_to } ==> plan.first_token() == trim_to,
        plan.run is Chunked || plan.run is Whole ==> plan.first_token() == 0,
        plan.mrope && (plan.run is From || plan.run is LastAgain) ==> readied_text(plan, text_pos)
            == plan.first_token(),
        !plan.mrope || plan.run is Chunked || plan.run is Whole ==> readied_text(plan, text_pos)
            == text_pos,
{
}

/// Cutting a store cuts every layer to the same positions, with its flat arrays in the
/// sixteen-bit format, and counts as many tokens.
pub proof fn law_cutting_reaches_every_layer<F>(store: KvContents<F>, positions: usize, i: int)
    requires
        store.wf(),
        0 <= i < store.layers.len(),
    ensures
        store.cut_all(positions as int).layers.len() == store.layers.len(),
        store.cut_all(positions as int).layers[i] == store.layers[i].cut_to(
            positions as int,
            store.head_dim as int,
        ),
        store.cut_all(positions as int).seq_len == positions,
        store.kv_quant is BF16 ==> store.cut_all(positions as int).keys[i] == cut(
            store.keys[i],
            positions * store.kv_dim,
        ) && store.cut_all(positions as int).values[i] == cut(
            store.values[i],
            positions * store.kv_dim,
        ),
        !(store.kv_quant is BF16) ==> store.cut_all(positions as int).keys == store.keys
            && store.cut_all(positions as int).values == store.values,
        store.cut_all(positions as int).num_kv_heads == store.num_kv_heads,
        store.cut_all(positions as int).head_dim == store.head_dim,
        store.cut_all(positions as int).kv_dim == store.kv_dim,
        store.cut_all(positions as int).kv_quant == store.kv_quant,
{
}

/// Tokens of images add up.
pub proof fn law_image_tokens_add_up(counts: Seq<usize>, count: usize)
    ensures
        total_of(Seq::<usize>::empty()) == 0,
        total_of(counts.push(count)) == total_of(counts) + count,
{
    assert(counts.push(count).drop_last() =~= counts);
}

/// An image's places are those of its range, one behind the other, and the places of
/// images lie behind each other in the order of the images.
pub proof fn law_image_places_are_the_ranges(
    ranges: Seq<(usize, usize)>,
    range: (usize, usize),
    i: int,
)
    requires
        0 <= i,
    ensures
        image_places(Seq::<(usize, usize)>::empty()).len() == 0,
        image_places(ranges.push(range)).len() == image_places(ranges).len() + (if range.0
            <= range.1 {
            range.1 - range.0
        } else {
            0
        }),
        i < image_places(ranges).len() ==> image_places(ranges.push(range))[i] == image_places(
            ranges,
        )[i],
        i < range.1 - range.0 ==> image_places(ranges.push(range))[image_places(ranges).len() + i]
            == range.0 + i,
{
    assert(ranges.push(range).drop_last() =~= ranges);
}

/// A layer's features are those of the images that have features for it, in the order of
/// the images, and there are as many layers as the image with the most has.
pub proof fn law_features_are_joined_layer_by_layer<F>(
    images: Seq<Vec<Vec<F>>>,
    layer: int,
    n: int,
)
    requires
        0 <= n < images.len(),
        0 <= layer,
    ensures
        features_of(images, layer, 0).len() == 0,
        layer < images[n]@.len() ==> features_of(images, layer, n + 1) == features_of(
            images,
            layer,
            n,
        ) + images[n]@[layer]@,
        layer >= images[n]@.len() ==> features_of(images, layer, n + 1) == features_of(
            images,
            layer,
            n,
        ),
        feature_layers(images, 0) == 0,
        feature_layers(images, n + 1) >= feature_layers(images, n),
        feature_layers(images, n + 1) >= images[n]@.len(),
        feature_layers(images, n + 1) == feature_layers(images, n) || feature_layers(images, n + 1)
            == images[n]@.len(),
{
}

/// Each image brings its own features and its own number of tokens.
pub proof fn law_images_bring_their_own<F>(images: Seq<VisionEmbedding<F>>, i: int)
    requires
        0 <= i < images.len(),
    ensures
        all_features(images).len() == images.len(),
        all_features(images)[i] == images[i].deepstack_features,
        all_counts(images).len() == images.len(),
        all_counts(images)[i] == images[i].num_tokens,
{
}

} // verus!
