//! The EAGLE-3 draft head: how it is loaded, which tokens it knows, and what it keeps
//! of the tokens it has drafted.

use vstd::prelude::*;

use crate::config::Config;
use crate::float_order::{exceeds, is_greater, is_nan_spec, order_key_spec};
use crate::kv_cache::cut;
use crate::tensor_header::{check_ends, ends_fit};
use crate::text::{
    chars_of, find_word, first_place, law_first_place_is_the_first, occurs_at, trim_text, trimmed,
};

verus! {

// ---------------------------------------------------------------------------
// Tensors in a file
// ---------------------------------------------------------------------------

/// The tensors of a file: `safetensors::SafeTensors`.
#[verifier::external_type_specification]
#[verifier::external_body]
pub struct ExSafeTensors<'data>(safetensors::SafeTensors<'data>);

/// Why `safetensors` does not read a file: `safetensors::SafeTensorError`.
#[verifier::external_type_specification]
#[verifier::external_body]
pub struct ExSafeTensorError(safetensors::SafeTensorError);

/// What `SafeTensors::deserialize` finds in a file: for each name, whether the tensor
/// holds sixteen-bit brain floats, and its bytes; or nothing, where it refuses the file.
pub uninterp spec fn file_tensors(file: Seq<u8>) -> Option<Map<Seq<char>, (bool, Seq<u8>)>>;

/// The tensors that a `SafeTensors` holds: for each name, whether the tensor holds
/// sixteen-bit brain floats, and its bytes.
pub uninterp spec fn tensors_in(tensors: safetensors::SafeTensors<'_>) -> Map<
    Seq<char>,
    (bool, Seq<u8>),
>;

/// Calls `SafeTensors::deserialize`. Whether it accepts a file, and which tensors it
/// then finds, depends on the bytes of the file, and on the size of a machine number.
/// Which error it gives for a file that it refuses is left unsaid. It adds the end of
/// the last tensor to the length of the header without a check; files in whose header
/// some tensor ends too far out for that are left out.
#[verifier::external_body]
fn parse_tensors<'a>(file: &'a [u8]) -> (tensors: Result<
    safetensors::SafeTensors<'a>,
    safetensors::SafeTensorError,
>)
    requires
        ends_fit(file@),
    ensures
        match tensors {
            Ok(t) => file_tensors(file@) == Some(tensors_in(t)),
            Err(_) => file_tensors(file@) is None,
        },
{
    safetensors::SafeTensors::deserialize(file)
}

/// Calls `SafeTensors::tensor`, and `TensorView::dtype` and `TensorView::data` on what
/// it finds. It finds a tensor if and only if there is one of that name.
#[verifier::external_body]
fn tensor_bytes<'a>(tensors: &safetensors::SafeTensors<'a>, name: &str) -> (found: Result<
    (bool, &'a [u8]),
    safetensors::SafeTensorError,
>)
    ensures
        match found {
            Ok((bf16, bytes)) => tensors_in(*tensors).contains_key(name@) && tensors_in(
                *tensors,
            )[name@] == (bf16, bytes@),
            Err(_) => !tensors_in(*tensors).contains_key(name@),
        },
{
    let view = tensors.tensor(name)?;
    let bf16 = match view.dtype() {
        safetensors::Dtype::BF16 => true,
        _ => false,
    };
    Ok((bf16, view.data()))
}

/// Why a draft head is not loaded.
#[derive(Clone, Copy, Debug, PartialEq, Eq, Structural)]
pub enum Eagle3LoadError {
    /// The file is not one of tensors.
    Unreadable,
    /// A weight is missing: its number among the weights.
    MissingWeight(usize),
    /// A weight does not hold sixteen-bit brain floats.
    NotBf16(usize),
    /// The mask of known tokens is missing.
    MissingMask,
}

/// How many weights a draft head has.
pub const NUM_WEIGHTS: usize = 13;

/// The name of a weight in the file.
pub open spec fn weight_name(i: int) -> Seq<char> {
    if i == 0 {
        "fc.weight"@
    } else if i == 1 {
        "midlayer.hidden_norm.weight"@
    } else if i == 2 {
        "midlayer.input_layernorm.weight"@
    } else if i == 3 {
        "midlayer.self_attn.q_proj.weight"@
    } else if i == 4 {
        "midlayer.self_attn.k_proj.weight"@
    } else if i == 5 {
        "midlayer.self_attn.v_proj.weight"@
    } else if i == 6 {
        "midlayer.self_attn.o_proj.weight"@
    } else if i == 7 {
        "midlayer.post_attention_layernorm.weight"@
    } else if i == 8 {
        "midlayer.mlp.gate_proj.weight"@
    } else if i == 9 {
        "midlayer.mlp.up_proj.weight"@
    } else if i == 10 {
        "midlayer.mlp.down_proj.weight"@
    } else if i == 11 {
        "norm.weight"@
    } else {
        "lm_head.weight"@
    }
}

/// The name of a weight in the file.
pub fn name_of_weight(i: usize) -> (name: &'static str)
    ensures
        name@ == weight_name(i as int),
{
    match i {
        0 => "fc.weight",
        1 => "midlayer.hidden_norm.weight",
        2 => "midlayer.input_layernorm.weight",
        3 => "midlayer.self_attn.q_proj.weight",
        4 => "midlayer.self_attn.k_proj.weight",
        5 => "midlayer.self_attn.v_proj.weight",
        6 => "midlayer.self_attn.o_proj.weight",
        7 => "midlayer.post_attention_layernorm.weight",
        8 => "midlayer.mlp.gate_proj.weight",
        9 => "midlayer.mlp.up_proj.weight",
        10 => "midlayer.mlp.down_proj.weight",
        11 => "norm.weight",
        _ => "lm_head.weight",
    }
}

/// The sixteen-bit numbers that stand in a run of bytes, the low byte first. A last
/// byte without a partner is left out.
pub open spec fn halves_of(bytes: Seq<u8>) -> Seq<u16> {
    Seq::new((bytes.len() / 2) as nat, |i: int| (bytes[2 * i] + 256 * bytes[2 * i + 1]) as u16)
}

/// Reads the sixteen-bit numbers that stand in a run of bytes.
pub fn decode_bf16(bytes: &[u8]) -> (data: Vec<u16>)
    ensures
        data@ == halves_of(bytes@),
{
    let mut data: Vec<u16> = Vec::new();
    let len: usize = bytes.len();
    let count: usize = len / 2;
    let mut i: usize = 0;
    while i < count
        invariant
            i <= count == len / 2,
            len == bytes@.len(),
            data@.len() == i,
            forall|j: int|
                0 <= j < i ==> #[trigger] data@[j] == (bytes@[2 * j] + 256 * bytes@[2 * j
                    + 1]) as u16,
        decreases count - i,
    {
        data.push(bytes[2 * i] as u16 + 256 * (bytes[2 * i + 1] as u16));
        i = i + 1;
    }
    proof {
        assert(data@ =~= halves_of(bytes@));
    }
    data
}

/// What is wrong with the first of the first `n` weights that is missing or of another
/// type.
pub open spec fn weight_fault(tensors: Map<Seq<char>, (bool, Seq<u8>)>, n: int) -> Option<
    Eagle3LoadError,
>
    decreases n,
{
    if n <= 0 {
        None
    } else {
        match weight_fault(tensors, n - 1) {
            Some(e) => Some(e),
            None => {
                let name = weight_name(n - 1);
                if !tensors.contains_key(name) {
                    Some(Eagle3LoadError::MissingWeight((n - 1) as usize))
                } else if !tensors[name].0 {
                    Some(Eagle3LoadError::NotBf16((n - 1) as usize))
                } else {
                    None
                }
            },
        }
    }
}

/// What is wrong with a file of tensors.
pub open spec fn file_fault(tensors: Map<Seq<char>, (bool, Seq<u8>)>) -> Option<Eagle3LoadError> {
    match weight_fault(tensors, 13) {
        Some(e) => Some(e),
        None => if tensors.contains_key("t2d"@) {
            None
        } else {
            Some(Eagle3LoadError::MissingMask)
        },
    }
}

/// A fault in the first weights is the fault of all.
proof fn lemma_fault_stays(tensors: Map<Seq<char>, (bool, Seq<u8>)>, m: int, n: int)
    requires
        0 <= m <= n,
        weight_fault(tensors, m) is Some,
    ensures
        weight_fault(tensors, n) == weight_fault(tensors, m),
    decreases n,
{
    if m < n {
        lemma_fault_stays(tensors, m, n - 1);
    }
}

/// The tensors of a file that is read: their ends fit, and it is a file of tensors.
pub open spec fn readable_tensors(file: Seq<u8>) -> Option<Map<Seq<char>, (bool, Seq<u8>)>> {
    if ends_fit(file) {
        file_tensors(file)
    } else {
        None
    }
}

/// Reads the weights of a draft head, and the mask of the tokens that it knows, out of
/// a file of tensors.
pub fn read_weights(file: &[u8]) -> (read: Result<(Vec<Vec<u16>>, Vec<u8>), Eagle3LoadError>)
    ensures
        match readable_tensors(file@) {
            None => read == Err::<(Vec<Vec<u16>>, Vec<u8>), Eagle3LoadError>(
                Eagle3LoadError::Unreadable,
            ),
            Some(tensors) => match file_fault(tensors) {
                Some(e) => read == Err::<(Vec<Vec<u16>>, Vec<u8>), Eagle3LoadError>(e),
                None => {
                    &&& read is Ok
                    &&& read->Ok_0.0@.len() == 13
                    &&& forall|i: int|
                        0 <= i < 13 ==> (#[trigger] read->Ok_0.0@[i])@ == halves_of(
                            tensors[weight_name(i)].1,
                        )
                    &&& read->Ok_0.1@ == tensors["t2d"@].1
                },
            },
        },
{
    if !check_ends(file) {
        return Err(Eagle3LoadError::Unreadable);
    }
    let tensors = match parse_tensors(file) {
        Ok(t) => t,
        Err(_) => {
            return Err(Eagle3LoadError::Unreadable);
        },
    };
    let ghost found = tensors_in(tensors);
    let mut weights: Vec<Vec<u16>> = Vec::new();
    let mut i: usize = 0;
    while i < NUM_WEIGHTS
        invariant
            i <= 13,
            found == tensors_in(tensors),
            readable_tensors(file@) == Some(found),
            weight_fault(found, i as int) is None,
            weights@.len() == i,
            forall|j: int|
                0 <= j < i ==> (#[trigger] weights@[j])@ == halves_of(found[weight_name(j)].1),
        decreases 13 - i,
    {
        let name = name_of_weight(i);
        match tensor_bytes(&tensors, name) {
            Err(_) => {
                proof {
                    lemma_fault_stays(found, i + 1, 13);
                }
                return Err(Eagle3LoadError::MissingWeight(i));
            },
            Ok((bf16, bytes)) => {
                if !bf16 {
                    proof {
                        lemma_fault_stays(found, i + 1, 13);
                    }
                    return Err(Eagle3LoadError::NotBf16(i));
                }
                weights.push(decode_bf16(bytes));
            },
        }
        i = i + 1;
    }
    match tensor_bytes(&tensors, "t2d") {
        Err(_) => Err(Eagle3LoadError::MissingMask),
        Ok((_, bytes)) => Ok((weights, vstd::slice::slice_to_vec(bytes))),
    }
}

// ---------------------------------------------------------------------------
// The tokens of the draft head
// ---------------------------------------------------------------------------

/// How many of the first `n` tokens the draft head knows.
pub open spec fn known_before(mask: Seq<u8>, n: int) -> int
    decreases n,
{
    if n <= 0 {
        0
    } else {
        known_before(mask, n - 1) + if mask[n - 1] != 0 {
            1int
        } else {
            0
        }
    }
}

/// The known tokens among the first `n`, in order.
pub open spec fn known_tokens(mask: Seq<u8>, n: int) -> Seq<i64>
    decreases n,
{
    if n <= 0 {
        Seq::empty()
    } else if mask[n - 1] != 0 {
        known_tokens(mask, n - 1).push((n - 1) as i64)
    } else {
        known_tokens(mask, n - 1)
    }
}

/// For each token its number among the known ones, or -1.
pub open spec fn draft_numbers(mask: Seq<u8>) -> Seq<i32> {
    Seq::new(
        mask.len(),
        |i: int|
            if mask[i] != 0 {
                known_before(mask, i) as i32
            } else {
                (-1) as i32
            },
    )
}

/// Works out from the mask which token each draft token stands for, and which draft
/// token each token has.
pub fn token_maps(mask: &[u8]) -> (maps: (Vec<i64>, Vec<i32>))
    ensures
        maps.0@ == known_tokens(mask@, mask@.len() as int),
        maps.1@ == draft_numbers(mask@),
{
    let mut d2t: Vec<i64> = Vec::new();
    let mut t2d: Vec<i32> = Vec::new();
    let count: usize = mask.len();
    let mut known: usize = 0;
    let mut i: usize = 0;
    while i < count
        invariant
            i <= count == mask@.len(),
            known <= i,
            known == known_before(mask@, i as int),
            d2t@ == known_tokens(mask@, i as int),
            t2d@.len() == i,
            forall|j: int|
                0 <= j < i ==> #[trigger] t2d@[j] == (if mask@[j] != 0 {
                    known_before(mask@, j) as i32
                } else {
                    (-1) as i32
                }),
        decreases count - i,
    {
        if mask[i] != 0 {
            d2t.push(i as i64);
            t2d.push(known as i32);
            known = known + 1;
        } else {
            t2d.push(-1);
        }
        i = i + 1;
    }
    proof {
        assert(t2d@ =~= draft_numbers(mask@));
    }
    (d2t, t2d)
}

/// The known tokens are as many as are counted, stand in rising order, and are the
/// tokens whose number is asked for.
proof fn lemma_known(mask: Seq<u8>, n: int)
    requires
        0 <= n <= mask.len() <= 0x1_0000_0000,
    ensures
        known_tokens(mask, n).len() == known_before(mask, n),
        0 <= known_before(mask, n) <= n,
        forall|d: int|
            0 <= d < known_before(mask, n) ==> {
                let t = #[trigger] known_tokens(mask, n)[d];
                0 <= t < n && mask[t as int] != 0 && known_before(mask, t as int) == d
            },
        forall|t: int|
            0 <= t < n && #[trigger] mask[t] != 0 ==> 0 <= known_before(mask, t) < known_before(
                mask,
                n,
            ) && known_tokens(mask, n)[known_before(mask, t)] == t,
    decreases n,
{
    if n > 0 {
        lemma_known(mask, n - 1);
    }
}

/// The two maps undo each other: every draft token stands for a known token and has its
/// number, and every known token's number leads back to it. Draft tokens stand in the
/// order of the tokens.
pub proof fn law_token_maps_are_inverse(mask: Seq<u8>, d: int, t: int)
    requires
        mask.len() <= 0x1_0000_0000,
        known_before(mask, mask.len() as int) <= 0x8000_0000,
        0 <= d < known_tokens(mask, mask.len() as int).len(),
        0 <= t < mask.len(),
    ensures
        ({
            let d2t = known_tokens(mask, mask.len() as int);
            let t2d = draft_numbers(mask);
            &&& 0 <= d2t[d] < mask.len()
            &&& t2d[d2t[d] as int] == d
            &&& t2d[t] >= 0 <==> mask[t] != 0
            &&& t2d[t] >= 0 ==> t2d[t] < d2t.len() && d2t[t2d[t] as int] == t
            &&& d + 1 < d2t.len() ==> d2t[d] < d2t[d + 1]
        }),
{
    lemma_known(mask, mask.len() as int);
    let d2t = known_tokens(mask, mask.len() as int);
    assert(0 <= d2t[d] < mask.len());
    lemma_counts_grow(mask, t, mask.len() as int);
    if d + 1 < d2t.len() {
        lemma_counts_grow(mask, d2t[d + 1] as int, d2t[d] as int);
    }
}

/// A loaded head maps tokens to draft tokens and back. Going from a draft token to its
/// token and back gives the draft token. A token of the mask has the draft token whose
/// number is the count of the mask's tokens before it; every other token has none.
/// Draft tokens stand in the order of their tokens. The mask is one whose tokens, and
/// whose draft tokens, are numbers of the sizes that the head keeps them in.
pub proof fn law_head_maps_tokens<F>(
    head: Eagle3Head<F>,
    mask: Seq<u8>,
    target: &Config,
    config_text: Seq<char>,
)
    requires
        head.is_new(mask, target, config_text),
        mask.len() <= 0x1_0000_0000,
        known_before(mask, mask.len() as int) <= 0x8000_0000,
    ensures
        head.t2d@.len() == mask.len(),
        forall|d: u32|
            d < head.d2t@.len() ==> head.draft_of(#[trigger] head.target_of(d)) == Some(d),
        forall|t: u32|
            #[trigger] head.draft_of(t) == (if t < mask.len() && mask[t as int] != 0 {
                Some(known_before(mask, t as int) as u32)
            } else {
                None
            }),
        forall|c: u32, d: u32|
            c < d < head.d2t@.len() ==> #[trigger] head.target_of(c) < #[trigger] head.target_of(d),
{
    let n = mask.len() as int;
    lemma_known(mask, n);
    let d2t = known_tokens(mask, n);
    assert forall|t: u32| #[trigger]
        head.draft_of(t) == (if t < mask.len() && mask[t as int] != 0 {
            Some(known_before(mask, t as int) as u32)
        } else {
            None
        }) by {
        if t < mask.len() && mask[t as int] != 0 {
            assert(0 <= known_before(mask, t as int) < known_before(mask, n));
        }
    }
    assert forall|d: u32| d < head.d2t@.len() implies head.draft_of(#[trigger] head.target_of(d))
        == Some(d) by {
        let t = d2t[d as int];
        assert(0 <= t < n && mask[t as int] != 0 && known_before(mask, t as int) == d);
    }
    assert forall|c: u32, d: u32| c < d < head.d2t@.len() implies #[trigger] head.target_of(c)
        < #[trigger] head.target_of(d) by {
        let s = d2t[c as int] as int;
        let t = d2t[d as int] as int;
        assert(0 <= s < n && known_before(mask, s) == c);
        assert(0 <= t < n && known_before(mask, t) == d);
        lemma_counts_grow(mask, t, s);
    }
}

/// Counting further never counts less.
proof fn lemma_counts_grow(mask: Seq<u8>, m: int, n: int)
    requires
        0 <= m,
    ensures
        m <= n ==> known_before(mask, m) <= known_before(mask, n),
    decreases n - m,
{
    if m < n {
        lemma_counts_grow(mask, m, n - 1);
    }
}

// ---------------------------------------------------------------------------
// The head
// ---------------------------------------------------------------------------

/// For how many positions the draft head has rotations.
pub const EAGLE3_MAX_POS: usize = 8192;

/// A draft head: one decoder layer on the hidden states of the target model, with its
/// own vocabulary.
pub struct Eagle3Head<F> {
    pub fc_weight: Vec<u16>,
    pub hidden_norm: Vec<u16>,
    pub input_layernorm: Vec<u16>,
    pub q_proj: Vec<u16>,
    pub k_proj: Vec<u16>,
    pub v_proj: Vec<u16>,
    pub o_proj: Vec<u16>,
    pub post_attn_norm: Vec<u16>,
    pub mlp_gate: Vec<u16>,
    pub mlp_up: Vec<u16>,
    pub mlp_down: Vec<u16>,
    pub final_norm: Vec<u16>,
    pub lm_head: Vec<u16>,
    /// The token that each draft token stands for.
    pub d2t: Vec<i64>,
    /// The draft token of each token, or -1.
    pub t2d: Vec<i32>,
    pub hidden_size: usize,
    pub num_heads: usize,
    pub num_kv_heads: usize,
    pub head_dim: usize,
    pub intermediate_size: usize,
    /// Whether rotations turn neighbours instead of halves.
    pub mrope_interleaved: bool,
    /// The layers whose hidden states the head reads.
    pub extract_layers: [usize; 3],
    /// For each key head, the keys of the drafted tokens, one behind the other.
    pub kv_keys: Vec<Vec<F>>,
    pub kv_values: Vec<Vec<F>>,
    pub kv_seq_len: usize,
}

/// Why a draft step does not run.
#[derive(Clone, Copy, Debug, PartialEq, Eq, Structural)]
pub enum DraftError {
    /// Neither hidden states nor an earlier output are there.
    NoInput,
}

/// What a draft step starts from.
#[derive(Clone, Copy, Debug, PartialEq, Eq, Structural)]
pub enum DraftSource {
    /// The hidden states of the target model.
    HiddenStates,
    /// The output of the step before.
    Previous,
}

/// What a draft step reads.
#[derive(Clone, Copy, Debug, PartialEq, Eq, Structural)]
pub struct DraftPlan {
    pub source: DraftSource,
    /// Where the token's embedding starts.
    pub embed_start: usize,
    /// Where the rotation of the position starts.
    pub rope_start: usize,
}

/// Each row holds `n` elements.
pub open spec fn rows_hold<F>(rows: Seq<Vec<F>>, n: int) -> bool {
    forall|h: int| 0 <= h < rows.len() ==> (#[trigger] rows[h])@.len() == n
}

/// Whether a configuration says that rotations turn neighbours.
pub open spec fn says_interleaved(config_text: Seq<char>) -> bool {
    first_place(config_text, "\"mrope_interleaved\": true"@, 0) is Some || first_place(
        config_text,
        "\"mrope_interleaved\":true"@,
        0,
    ) is Some
}

/// Whether a configuration says that rotations turn neighbours.
pub fn is_interleaved(config_text: &str) -> (b: bool)
    ensures
        b == says_interleaved(config_text@),
{
    let chars = chars_of(config_text);
    match find_word(&chars, "\"mrope_interleaved\": true", 0) {
        Some(_) => true,
        None => match find_word(&chars, "\"mrope_interleaved\":true", 0) {
            Some(_) => true,
            None => false,
        },
    }
}

/// Whether a character ends a value.
pub open spec fn ends_value(c: char) -> bool {
    c == ',' || c == '}' || c == '\n'
}

/// Where a value ends, seen from place `i`: before the first comma, brace or line end.
pub open spec fn value_end(value: Seq<char>, i: int) -> int
    decreases value.len() - i,
{
    if i >= value.len() || ends_value(value[i]) {
        i
    } else {
        value_end(value, i + 1)
    }
}

/// The text of the rotation base in a configuration: what stands behind the first colon
/// behind its name, up to the end of the value, without white space around it.
pub open spec fn theta_text(config_text: Seq<char>) -> Option<Seq<char>> {
    match first_place(config_text, "\"rope_theta\""@, 0) {
        None => None,
        Some(name) => match first_place(config_text, ":"@, name) {
            None => None,
            Some(colon) => {
                let value = trimmed(config_text.skip(colon + 1));
                Some(trimmed(value.take(value_end(value, 0))))
            },
        },
    }
}

/// The text of the rotation base in a configuration, where it has one.
pub fn rope_theta_text(config_text: &str) -> (theta: Option<&str>)
    ensures
        match theta_text(config_text@) {
            Some(text) => theta is Some && theta->Some_0@ == text,
            None => theta is None,
        },
{
    let chars = chars_of(config_text);
    let count: usize = chars.len();
    let name: usize = match find_word(&chars, "\"rope_theta\"", 0) {
        None => {
            return None;
        },
        Some(p) => p,
    };
    let colon: usize = match find_word(&chars, ":", name) {
        None => {
            return None;
        },
        Some(p) => p,
    };
    proof {
        reveal_strlit(":");
        lemma_place_is_inside(chars@, ":"@, name as int);
    }
    let rest = config_text.substring_char(colon + 1, count);
    proof {
        assert(rest@ =~= config_text@.skip(colon + 1));
    }
    let value = trim_text(rest);
    let letters = chars_of(value);
    let len: usize = letters.len();
    let mut end: usize = 0;
    while end < len && letters[end] != ',' && letters[end] != '}' && letters[end] != '\n'
        invariant
            end <= len == letters@.len(),
            letters@ == value@,
            value_end(value@, 0) == value_end(value@, end as int),
        decreases len - end,
    {
        end = end + 1;
    }
    let number = value.substring_char(0, end);
    proof {
        assert(number@ =~= value@.take(end as int));
    }
    Some(trim_text(number))
}

/// A place at which a word stands leaves room for the word.
proof fn lemma_place_is_inside(text: Seq<char>, word: Seq<char>, from: int)
    requires
        0 <= from,
    ensures
        first_place(text, word, from) matches Some(p) ==> from <= p && p + word.len()
            <= text.len(),
    decreases text.len() + 1 - from,
{
    if from <= text.len() && !occurs_at(text, word, from) {
        lemma_place_is_inside(text, word, from + 1);
    }
}

/// The sizes that the lengths of some weights tell.
#[derive(Clone, Copy, Debug, PartialEq, Eq, Structural)]
pub struct HeadSizes {
    pub num_heads: usize,
    pub num_kv_heads: usize,
    pub intermediate_size: usize,
}

/// The number of heads that a projection from twice the hidden size has.
pub open spec fn heads_in(weight_len: int, hidden_size: int, head_dim: int) -> int {
    weight_len / (2 * hidden_size) / head_dim
}

/// Works out the sizes of a head from the lengths of its weights.
pub fn infer_sizes(
    q_len: usize,
    k_len: usize,
    gate_len: usize,
    hidden_size: usize,
    head_dim: usize,
) -> (sizes: HeadSizes)
    requires
        hidden_size > 0,
        2 * hidden_size <= usize::MAX,
        head_dim > 0,
    ensures
        sizes.num_heads == heads_in(q_len as int, hidden_size as int, head_dim as int),
        sizes.num_kv_heads == heads_in(k_len as int, hidden_size as int, head_dim as int),
        sizes.intermediate_size == gate_len as int / hidden_size as int,
{
    HeadSizes {
        num_heads: q_len / (2 * hidden_size) / head_dim,
        num_kv_heads: k_len / (2 * hidden_size) / head_dim,
        intermediate_size: gate_len / hidden_size,
    }
}

/// The layers whose hidden states a draft head reads: one near the start, the middle
/// one, and one near the end.
pub fn extract_layers(num_layers: usize) -> (layers: [usize; 3])
    requires
        num_layers >= 3,
    ensures
        layers@ == seq![2usize, (num_layers as int / 2) as usize, (num_layers - 3) as usize],
{
    [2, num_layers / 2, num_layers - 3]
}

/// From how many products on the logits of a draft are divided among the workers.
pub const DRAFT_PAR_THRESHOLD: usize = 524288;

/// Whether the logits of a draft are divided among the workers.
pub fn divides_logits(rows: usize, columns: usize) -> (b: bool)
    requires
        rows * columns <= usize::MAX,
    ensures
        b == (rows * columns >= DRAFT_PAR_THRESHOLD),
        b == (rows * columns >= 0x8_0000),
{
    rows * columns >= DRAFT_PAR_THRESHOLD
}

/// The pattern of negative infinity.
pub const NEG_INFINITY_BITS: u32 = 0xff80_0000;

/// The best of the first `n` logits, and its value: each takes over only from a smaller
/// one, and the first from negative infinity.
pub open spec fn best_draft(logits: Seq<u32>, n: int) -> (int, u32)
    decreases n,
{
    if n <= 0 {
        (0, 0xff80_0000)
    } else {
        let before = best_draft(logits, n - 1);
        if exceeds(logits[n - 1], before.1) {
            (n - 1, logits[n - 1])
        } else {
            before
        }
    }
}

/// Chooses the draft token with the greatest logit; the first where several share it.
pub fn choose_draft(logits: &[u32]) -> (draft: usize)
    ensures
        draft == best_draft(logits@, logits@.len() as int).0,
        logits@.len() > 0 ==> draft < logits@.len(),
{
    let mut best: usize = 0;
    let mut best_val: u32 = NEG_INFINITY_BITS;
    let count: usize = logits.len();
    let mut i: usize = 0;
    while i < count
        invariant
            i <= count == logits@.len(),
            best == 0 || best < i,
            (best as int, best_val) == best_draft(logits@, i as int),
        decreases count - i,
    {
        let v: u32 = logits[i];
        if is_greater(v, best_val) {
            best = i;
            best_val = v;
        }
        i = i + 1;
    }
    best
}

/// Among numbers above negative infinity, the choice is a greatest one, and the first of
/// those.
pub proof fn law_draft_is_first_greatest(logits: Seq<u32>, n: int)
    requires
        1 <= n <= logits.len(),
        forall|i: int|
            0 <= i < n ==> exceeds(#[trigger] logits[i], 0xff80_0000),
    ensures
        ({
            let best = best_draft(logits, n).0;
            &&& 0 <= best < n
            &&& best_draft(logits, n).1 == logits[best]
            &&& forall|i: int|
                0 <= i < n ==> order_key_spec(#[trigger] logits[i]) <= order_key_spec(logits[best])
            &&& forall|i: int|
                0 <= i < best ==> order_key_spec(#[trigger] logits[i]) < order_key_spec(
                    logits[best],
                )
        }),
    decreases n,
{
    assert(exceeds(logits[n - 1], 0xff80_0000));
    if n > 1 {
        law_draft_is_first_greatest(logits, n - 1);
        assert(!is_nan_spec(logits[best_draft(logits, n - 1).0])) by {
            assert(exceeds(logits[best_draft(logits, n - 1).0], 0xff80_0000));
        }
    } else {
        assert(best_draft(logits, 0) == (0int, 0xff80_0000u32));
    }
}

impl<F> Eagle3Head<F> {
    /// Every key head holds one row for each drafted token.
    pub open spec fn wf(self) -> bool {
        &&& self.kv_keys@.len() == self.num_kv_heads
        &&& self.kv_values@.len() == self.num_kv_heads
        &&& rows_hold(self.kv_keys@, self.kv_seq_len * self.head_dim)
        &&& rows_hold(self.kv_values@, self.kv_seq_len * self.head_dim)
    }

    /// The head is the same but for what it keeps of drafted tokens.
    pub open spec fn same_model(self, other: Self) -> bool {
        self == (Eagle3Head {
            kv_keys: self.kv_keys,
            kv_values: self.kv_values,
            kv_seq_len: self.kv_seq_len,
            ..other
        })
    }

    /// The head has the weights, in the order of their names in the file.
    pub open spec fn has_weights(self, weights: Seq<Vec<u16>>) -> bool {
        &&& self.fc_weight == weights[0]
        &&& self.hidden_norm == weights[1]
        &&& self.input_layernorm == weights[2]
        &&& self.q_proj == weights[3]
        &&& self.k_proj == weights[4]
        &&& self.v_proj == weights[5]
        &&& self.o_proj == weights[6]
        &&& self.post_attn_norm == weights[7]
        &&& self.mlp_gate == weights[8]
        &&& self.mlp_up == weights[9]
        &&& self.mlp_down == weights[10]
        &&& self.final_norm == weights[11]
        &&& self.lm_head == weights[12]
    }

    /// The head has the sizes that its weights and the target model tell, reads the
    /// target's layers, knows the tokens of the mask, and has drafted nothing.
    pub open spec fn is_new(self, mask: Seq<u8>, target: &Config, config_text: Seq<char>) -> bool {
        &&& self.hidden_size == target.hidden_size
        &&& self.head_dim == target.head_dim
        &&& self.num_heads == heads_in(
            self.q_proj@.len() as int,
            target.hidden_size as int,
            target.head_dim as int,
        )
        &&& self.num_kv_heads == heads_in(
            self.k_proj@.len() as int,
            target.hidden_size as int,
            target.head_dim as int,
        )
        &&& self.intermediate_size == self.mlp_gate@.len() as int / target.hidden_size as int
        &&& self.extract_layers@ == seq![
            2usize,
            (target.num_layers as int / 2) as usize,
            (target.num_layers - 3) as usize,
        ]
        &&& self.mrope_interleaved == says_interleaved(config_text)
        &&& self.d2t@ == known_tokens(mask, mask.len() as int)
        &&& self.t2d@ == draft_numbers(mask)
        &&& self.kv_seq_len == 0
        &&& self.wf()
    }

    /// Puts a head together from its weights and its mask.
    pub fn assemble(
        weights: Vec<Vec<u16>>,
        mask: &[u8],
        target: &Config,
        config_text: &str,
    ) -> (head: Self)
        requires
            weights@.len() == 13,
            target.hidden_size > 0,
            2 * target.hidden_size <= usize::MAX,
            target.head_dim > 0,
            target.num_layers >= 3,
        ensures
            head.has_weights(weights@),
            head.is_new(mask@, target, config_text@),
    {
        let ghost given = weights@;
        let mut rest = weights;
        let lm_head = rest.pop().unwrap();
        let final_norm = rest.pop().unwrap();
        let mlp_down = rest.pop().unwrap();
        let mlp_up = rest.pop().unwrap();
        let mlp_gate = rest.pop().unwrap();
        let post_attn_norm = rest.pop().unwrap();
        let o_proj = rest.pop().unwrap();
        let v_proj = rest.pop().unwrap();
        let k_proj = rest.pop().unwrap();
        let q_proj = rest.pop().unwrap();
        let input_layernorm = rest.pop().unwrap();
        let hidden_norm = rest.pop().unwrap();
        let fc_weight = rest.pop().unwrap();
        let sizes = infer_sizes(
            q_proj.len(),
            k_proj.len(),
            mlp_gate.len(),
            target.hidden_size,
            target.head_dim,
        );
        let (d2t, t2d) = token_maps(mask);
        let kv_keys: Vec<Vec<F>> = empty_heads(sizes.num_kv_heads);
        let kv_values: Vec<Vec<F>> = empty_heads(sizes.num_kv_heads);
        proof {
            assert(0 * target.head_dim == 0) by (nonlinear_arith);
        }
        Eagle3Head {
            fc_weight,
            hidden_norm,
            input_layernorm,
            q_proj,
            k_proj,
            v_proj,
            o_proj,
            post_attn_norm,
            mlp_gate,
            mlp_up,
            mlp_down,
            final_norm,
            lm_head,
            d2t,
            t2d,
            hidden_size: target.hidden_size,
            num_heads: sizes.num_heads,
            num_kv_heads: sizes.num_kv_heads,
            head_dim: target.head_dim,
            intermediate_size: sizes.intermediate_size,
            mrope_interleaved: is_interleaved(config_text),
            extract_layers: extract_layers(target.num_layers),
            kv_keys,
            kv_values,
            kv_seq_len: 0,
        }
    }

    /// Loads a head out of a file of tensors, for a target model. `config_text` is the
    /// head's own configuration, or empty.
    pub fn load(file: &[u8], target: &Config, config_text: &str) -> (loaded: Result<
        Self,
        Eagle3LoadError,
    >)
        requires
            target.hidden_size > 0,
            2 * target.hidden_size <= usize::MAX,
            target.head_dim > 0,
            target.num_layers >= 3,
        ensures
            match readable_tensors(file@) {
                None => loaded == Err::<Self, Eagle3LoadError>(Eagle3LoadError::Unreadable),
                Some(tensors) => match file_fault(tensors) {
                    Some(e) => loaded == Err::<Self, Eagle3LoadError>(e),
                    None => {
                        &&& loaded is Ok
                        &&& loaded->Ok_0.is_new(tensors["t2d"@].1, target, config_text@)
                        &&& exists|weights: Seq<Vec<u16>>|
                            #[trigger] loaded->Ok_0.has_weights(weights) && weights.len() == 13 && (
                            forall|i: int|
                                0 <= i < 13 ==> (#[trigger] weights[i])@ == halves_of(
                                    tensors[weight_name(i)].1,
                                ))
                    },
                },
            },
    {
        match read_weights(file) {
            Err(e) => Err(e),
            Ok((weights, mask)) => {
                let ghost given = weights@;
                let head: Self = Self::assemble(weights, mask.as_slice(), target, config_text);
                proof {
                    assert(head.has_weights(given));
                }
                Ok(head)
            },
        }
    }

    /// Forgets all drafted tokens.
    pub fn reset_kv(&mut self)
        requires
            old(self).wf(),
        ensures
            final(self).wf(),
            final(self).kv_seq_len == 0,
            final(self).same_model(*old(self)),
    {
        cut_heads(&mut self.kv_keys, 0);
        cut_heads(&mut self.kv_values, 0);
        self.kv_seq_len = 0;
        proof {
            assert(0 * self.head_dim == 0) by (nonlinear_arith);
            assert(rows_hold(self.kv_keys@, 0));
            assert(rows_hold(self.kv_values@, 0));
        }
    }

    /// Keeps only the first `len` drafted tokens, where there are more.
    pub fn truncate_kv(&mut self, len: usize)
        requires
            old(self).wf(),
        ensures
            final(self).wf(),
            final(self).same_model(*old(self)),
            final(self).kv_seq_len == (if len < old(self).kv_seq_len {
                len
            } else {
                old(self).kv_seq_len
            }),
            forall|h: int|
                0 <= h < old(self).num_kv_heads ==> (#[trigger] final(self).kv_keys@[h])@ == cut(
                    old(self).kv_keys@[h]@,
                    final(self).kv_seq_len * old(self).head_dim,
                ),
            forall|h: int|
                0 <= h < old(self).num_kv_heads ==> (#[trigger] final(self).kv_values@[h])@ == cut(
                    old(self).kv_values@[h]@,
                    final(self).kv_seq_len * old(self).head_dim,
                ),
    {
        if self.num_kv_heads == 0 {
            if len < self.kv_seq_len {
                self.kv_seq_len = len;
            }
            return;
        }
        if len < self.kv_seq_len {
            let row: usize = self.kv_keys[0].len();
            proof {
                assert(self.kv_keys@[0]@.len() == self.kv_seq_len * self.head_dim);
                assert(0 <= len * self.head_dim <= self.kv_seq_len * self.head_dim)
                    by (nonlinear_arith)
                    requires
                        0 <= len <= self.kv_seq_len,
                        self.head_dim >= 0,
                ;
            }
            let elems: usize = len * self.head_dim;
            cut_heads(&mut self.kv_keys, elems);
            cut_heads(&mut self.kv_values, elems);
            self.kv_seq_len = len;
        }
    }

    /// The draft token of a token, where it has one.
    pub open spec fn draft_of(self, target_id: u32) -> Option<u32> {
        if target_id < self.t2d@.len() && self.t2d@[target_id as int] >= 0 {
            Some(self.t2d@[target_id as int] as u32)
        } else {
            None
        }
    }

    /// The token that a draft token stands for.
    pub open spec fn target_of(self, draft_id: u32) -> u32 {
        self.d2t@[draft_id as int] as u32
    }

    /// The draft token of a token, where it has one.
    pub fn target_to_draft(&self, target_id: u32) -> (draft: Option<u32>)
        ensures
            draft == self.draft_of(target_id),
    {
        let idx: usize = target_id as usize;
        if idx < self.t2d.len() && self.t2d[idx] >= 0 {
            Some(self.t2d[idx] as u32)
        } else {
            None
        }
    }

    /// The token that a draft token stands for.
    pub fn draft_to_target(&self, draft_id: u32) -> (target: u32)
        requires
            draft_id < self.d2t@.len(),
        ensures
            target == self.target_of(draft_id),
    {
        self.d2t[draft_id as usize] as u32
    }

    /// Starts a draft step: what it reads. `max_pos` is the number of positions that
    /// have rotations.
    pub fn draft_step(
        &self,
        token: u32,
        has_hidden_states: bool,
        has_prev_output: bool,
        embed_len: usize,
        rope_offset: usize,
        max_pos: usize,
    ) -> (plan: Result<DraftPlan, DraftError>)
        requires
            (token + 1) * self.hidden_size <= embed_len,
            rope_offset < max_pos,
            max_pos * (self.head_dim as int / 2) <= usize::MAX,
        ensures
            plan == (if has_hidden_states || has_prev_output {
                Ok::<DraftPlan, DraftError>(
                    DraftPlan {
                        source: if has_hidden_states {
                            DraftSource::HiddenStates
                        } else {
                            DraftSource::Previous
                        },
                        embed_start: (token * self.hidden_size) as usize,
                        rope_start: (rope_offset * (self.head_dim as int / 2)) as usize,
                    },
                )
            } else {
                Err(DraftError::NoInput)
            }),
    {
        if !has_hidden_states && !has_prev_output {
            return Err(DraftError::NoInput);
        }
        let half: usize = self.head_dim / 2;
        proof {
            assert((token + 1) * self.hidden_size == token * self.hidden_size + self.hidden_size
                && 0 <= token * self.hidden_size) by (nonlinear_arith)
                requires
                    token >= 0,
                    self.hidden_size >= 0,
            ;
            assert(0 <= rope_offset * half <= max_pos * half) by (nonlinear_arith)
                requires
                    0 <= rope_offset < max_pos,
                    half >= 0,
            ;
        }
        let source: DraftSource = if has_hidden_states {
            DraftSource::HiddenStates
        } else {
            DraftSource::Previous
        };
        Ok(
            DraftPlan {
                source,
                embed_start: token as usize * self.hidden_size,
                rope_start: rope_offset * half,
            },
        )
    }

    /// The key head that a query head reads.
    pub fn kv_head_of(&self, q_head: usize) -> (kv_head: usize)
        requires
            0 < self.num_kv_heads <= self.num_heads,
        ensures
            kv_head == q_head as int / (self.num_heads as int / self.num_kv_heads as int),
    {
        proof {
            vstd::arithmetic::div_mod::lemma_div_non_zero(
                self.num_heads as int,
                self.num_kv_heads as int,
            );
        }
        q_head / (self.num_heads / self.num_kv_heads)
    }

    /// The token that the greatest draft logit stands for.
    pub fn choose_target(&self, logits: &[u32]) -> (target: u32)
        requires
            0 < logits@.len() <= self.d2t@.len(),
            logits@.len() <= 0x1_0000_0000,
        ensures
            target == self.d2t@[best_draft(logits@, logits@.len() as int).0] as u32,
    {
        let draft: usize = choose_draft(logits);
        self.draft_to_target(draft as u32)
    }

    /// The number of draft tokens.
    pub fn draft_vocab_size(&self) -> (n: usize)
        ensures
            n == self.d2t@.len(),
    {
        self.d2t.len()
    }

    /// The number of tokens of the target model.
    pub fn target_vocab_size(&self) -> (n: usize)
        ensures
            n == self.t2d@.len(),
    {
        self.t2d.len()
    }

    /// The token that each draft token stands for.
    pub fn d2t(&self) -> (map: &[i64])
        ensures
            map@ == self.d2t@,
    {
        self.d2t.as_slice()
    }

    /// The draft token of each token, or -1.
    pub fn t2d(&self) -> (map: &[i32])
        ensures
            map@ == self.t2d@,
    {
        self.t2d.as_slice()
    }
}

/// The part of a row of keys or values that belongs to a head.
pub open spec fn head_part<F>(row: Seq<F>, h: int, head_dim: int) -> Seq<F> {
    row.subrange(h * head_dim, h * head_dim + head_dim)
}

impl<F: Copy> Eagle3Head<F> {
    /// Keeps the keys and values of one more drafted token.
    pub fn append_kv(&mut self, keys: &[F], values: &[F])
        requires
            old(self).wf(),
            keys@.len() == old(self).num_kv_heads * old(self).head_dim,
            values@.len() == old(self).num_kv_heads * old(self).head_dim,
            old(self).kv_seq_len < usize::MAX,
        ensures
            final(self).wf(),
            final(self).same_model(*old(self)),
            final(self).kv_seq_len == old(self).kv_seq_len + 1,
            forall|h: int|
                0 <= h < old(self).num_kv_heads ==> (#[trigger] final(self).kv_keys@[h])@ == old(
                    self,
                ).kv_keys@[h]@ + head_part(keys@, h, old(self).head_dim as int),
            forall|h: int|
                0 <= h < old(self).num_kv_heads ==> (#[trigger] final(self).kv_values@[h])@ == old(
                    self,
                ).kv_values@[h]@ + head_part(values@, h, old(self).head_dim as int),
    {
        append_heads(&mut self.kv_keys, keys, self.head_dim);
        append_heads(&mut self.kv_values, values, self.head_dim);
        proof {
            let n = self.kv_seq_len as int;
            let d = self.head_dim as int;
            assert((n + 1) * d == n * d + d) by (nonlinear_arith);
            assert forall|h: int| 0 <= h < self.num_kv_heads implies (
            #[trigger] self.kv_keys@[h])@.len() == (n + 1) * d by {
                lemma_part_len(keys@, h, self.num_kv_heads as int, d);
                assert(old(self).kv_keys@[h]@.len() == n * d);
            }
            assert forall|h: int| 0 <= h < self.num_kv_heads implies (
            #[trigger] self.kv_values@[h])@.len() == (n + 1) * d by {
                lemma_part_len(values@, h, self.num_kv_heads as int, d);
                assert(old(self).kv_values@[h]@.len() == n * d);
            }
        }
        self.kv_seq_len = self.kv_seq_len + 1;
    }
}

/// A head's part of a row is as long as the head is wide.
proof fn lemma_part_len<F>(row: Seq<F>, h: int, heads: int, head_dim: int)
    requires
        0 <= h < heads,
        0 <= head_dim,
        row.len() == heads * head_dim,
    ensures
        head_part(row, h, head_dim).len() == head_dim,
{
    assert(0 <= h * head_dim && h * head_dim + head_dim <= heads * head_dim) by (nonlinear_arith)
        requires
            0 <= h < heads,
            head_dim >= 0,
    ;
}

/// Adds each head's part of a row behind what the head holds.
fn append_heads<F: Copy>(heads: &mut Vec<Vec<F>>, row: &[F], head_dim: usize)
    requires
        row@.len() == old(heads)@.len() * head_dim,
    ensures
        final(heads)@.len() == old(heads)@.len(),
        forall|h: int|
            0 <= h < old(heads)@.len() ==> (#[trigger] final(heads)@[h])@ == old(heads)@[h]@
                + head_part(row@, h, head_dim as int),
{
    let ghost before = heads@;
    let count: usize = heads.len();
    let total: usize = row.len();
    let mut h: usize = 0;
    while h < count
        invariant
            h <= count == heads@.len(),
            before.len() == count,
            total == row@.len() == count * head_dim,
            forall|i: int|
                0 <= i < h ==> (#[trigger] heads@[i])@ == before[i]@ + head_part(
                    row@,
                    i,
                    head_dim as int,
                ),
            forall|i: int| h <= i < count ==> (#[trigger] heads@[i])@ == before[i]@,
        decreases count - h,
    {
        proof {
            assert(0 <= h * head_dim && h * head_dim + head_dim <= count * head_dim)
                by (nonlinear_arith)
                requires
                    0 <= h < count,
                    head_dim >= 0,
            ;
        }
        let start: usize = h * head_dim;
        append_part(&mut heads[h], row, start, head_dim);
        h = h + 1;
    }
}

/// Adds `len` elements of `row`, from `start` on, behind what a vector holds.
fn append_part<F: Copy>(v: &mut Vec<F>, row: &[F], start: usize, len: usize)
    requires
        start + len <= row@.len(),
    ensures
        final(v)@ == old(v)@ + row@.subrange(start as int, start + len),
{
    let ghost before = v@;
    let total: usize = row.len();
    let mut i: usize = 0;
    while i < len
        invariant
            i <= len,
            start + len <= total == row@.len(),
            v@ == before + row@.subrange(start as int, start + i),
        decreases len - i,
    {
        v.push(row[start + i]);
        i = i + 1;
        proof {
            assert(v@ =~= before + row@.subrange(start as int, start + i));
        }
    }
}

/// Cuts every head to its first `len` elements.
fn cut_heads<F>(heads: &mut Vec<Vec<F>>, len: usize)
    ensures
        final(heads)@.len() == old(heads)@.len(),
        forall|h: int|
            0 <= h < old(heads)@.len() ==> (#[trigger] final(heads)@[h])@ == cut(
                old(heads)@[h]@,
                len as int,
            ),
{
    let ghost before = heads@;
    let count: usize = heads.len();
    let mut h: usize = 0;
    while h < count
        invariant
            h <= count == heads@.len(),
            before.len() == count,
            forall|i: int| 0 <= i < h ==> (#[trigger] heads@[i])@ == cut(before[i]@, len as int),
            forall|i: int| h <= i < count ==> (#[trigger] heads@[i])@ == before[i]@,
        decreases count - h,
    {
        heads[h].truncate(len);
        h = h + 1;
    }
}

/// `count` empty vectors.
fn empty_heads<F>(count: usize) -> (heads: Vec<Vec<F>>)
    ensures
        heads@.len() == count,
        rows_hold(heads@, 0),
{
    let mut heads: Vec<Vec<F>> = Vec::new();
    while heads.len() < count
        invariant
            heads@.len() <= count,
            rows_hold(heads@, 0),
        decreases count - heads@.len(),
    {
        heads.push(Vec::new());
    }
    heads
}

/// Cutting back undoes drafting: cut to as many tokens as there were, a head holds again
/// what it held before one more token was kept.
pub proof fn law_cut_undoes_drafting<F>(held: Seq<F>, part: Seq<F>, tokens: int, head_dim: int)
    requires
        0 <= tokens,
        0 <= head_dim,
        held.len() == tokens * head_dim,
    ensures
        cut(held + part, tokens * head_dim) == held,
{
    assert(cut(held + part, tokens * head_dim) =~= held);
}

// ---------------------------------------------------------------------------
// Draft probabilities as target probabilities
// ---------------------------------------------------------------------------

/// `draft` spread out over the target's tokens: the first `n` draft tokens each give
/// their value to the token they stand for, and other tokens have `zero`.
pub open spec fn spread<F>(d2t: Seq<i64>, draft: Seq<F>, n: int, target_len: int, zero: F) -> Seq<F>
    decreases n,
{
    if n <= 0 {
        Seq::new(target_len as nat, |i: int| zero)
    } else {
        let before = spread(d2t, draft, n - 1, target_len, zero);
        let t = d2t[n - 1] as u32;
        if t < target_len {
            before.update(t as int, draft[n - 1])
        } else {
            before
        }
    }
}

impl<F: Copy> Eagle3Head<F> {
    /// Spreads values of draft tokens out over the target's tokens.
    pub fn spread_over_target(&self, draft: &[F], target_len: usize, zero: F) -> (target: Vec<F>)
        requires
            draft@.len() <= self.d2t@.len(),
        ensures
            target@ == spread(
                self.d2t@,
                draft@,
                draft@.len() as int,
                target_len as int,
                zero,
            ),
    {
        let mut target: Vec<F> = crate::kv_cache::fill_vec(target_len, zero);
        proof {
            assert(target@ =~= spread(self.d2t@, draft@, 0, target_len as int, zero));
        }
        let count: usize = draft.len();
        let mut d: usize = 0;
        while d < count
            invariant
                d <= count == draft@.len(),
                count <= self.d2t@.len(),
                target@.len() == target_len,
                target@ == spread(self.d2t@, draft@, d as int, target_len as int, zero),
            decreases count - d,
        {
            let t: usize = (self.d2t[d] as u32) as usize;
            if t < target_len {
                target.set(t, draft[d]);
            }
            d = d + 1;
        }
        target
    }
}

/// Spread out, a known token has the value of its draft token, and a token that the
/// draft head does not know has nothing.
pub proof fn law_spread_follows_the_maps<F>(
    mask: Seq<u8>,
    draft: Seq<F>,
    n: int,
    target_len: int,
    zero: F,
    t: int,
)
    requires
        mask.len() <= 0x1_0000_0000,
        known_before(mask, mask.len() as int) <= 0x8000_0000,
        0 <= n <= known_tokens(mask, mask.len() as int).len(),
        n <= draft.len(),
        0 <= t < mask.len(),
        t < target_len,
    ensures
        ({
            let d2t = known_tokens(mask, mask.len() as int);
            let d = draft_numbers(mask)[t];
            &&& spread(d2t, draft, n, target_len, zero).len() == target_len
            &&& spread(d2t, draft, n, target_len, zero)[t] == (if 0 <= d < n {
                draft[d as int]
            } else {
                zero
            })
        }),
    decreases n,
{
    let d2t = known_tokens(mask, mask.len() as int);
    if n > 0 {
        law_spread_follows_the_maps(mask, draft, n - 1, target_len, zero, t);
        law_token_maps_are_inverse(mask, n - 1, t);
        let last = d2t[n - 1];
        assert(last as u32 == last);
    }
}

// ---------------------------------------------------------------------------
// What is loaded, and what is kept
// ---------------------------------------------------------------------------

/// Every weight of a loaded head is the tensor of its own name, read as sixteen-bit
/// numbers.
pub proof fn law_weights_go_by_their_names<F>(
    head: Eagle3Head<F>,
    weights: Seq<Vec<u16>>,
    tensors: Map<Seq<char>, (bool, Seq<u8>)>,
)
    requires
        head.has_weights(weights),
        weights.len() == 13,
        forall|i: int|
            0 <= i < 13 ==> (#[trigger] weights[i])@ == halves_of(tensors[weight_name(i)].1),
    ensures
        head.fc_weight@ == halves_of(tensors["fc.weight"@].1),
        head.hidden_norm@ == halves_of(tensors["midlayer.hidden_norm.weight"@].1),
        head.input_layernorm@ == halves_of(tensors["midlayer.input_layernorm.weight"@].1),
        head.q_proj@ == halves_of(tensors["midlayer.self_attn.q_proj.weight"@].1),
        head.k_proj@ == halves_of(tensors["midlayer.self_attn.k_proj.weight"@].1),
        head.v_proj@ == halves_of(tensors["midlayer.self_attn.v_proj.weight"@].1),
        head.o_proj@ == halves_of(tensors["midlayer.self_attn.o_proj.weight"@].1),
        head.post_attn_norm@ == halves_of(tensors["midlayer.post_attention_layernorm.weight"@].1),
        head.mlp_gate@ == halves_of(tensors["midlayer.mlp.gate_proj.weight"@].1),
        head.mlp_up@ == halves_of(tensors["midlayer.mlp.up_proj.weight"@].1),
        head.mlp_down@ == halves_of(tensors["midlayer.mlp.down_proj.weight"@].1),
        head.final_norm@ == halves_of(tensors["norm.weight"@].1),
        head.lm_head@ == halves_of(tensors["lm_head.weight"@].1),
{
    assert(weights[0]@ == halves_of(tensors[weight_name(0)].1));
    assert(weights[1]@ == halves_of(tensors[weight_name(1)].1));
    assert(weights[2]@ == halves_of(tensors[weight_name(2)].1));
    assert(weights[3]@ == halves_of(tensors[weight_name(3)].1));
    assert(weights[4]@ == halves_of(tensors[weight_name(4)].1));
    assert(weights[5]@ == halves_of(tensors[weight_name(5)].1));
    assert(weights[6]@ == halves_of(tensors[weight_name(6)].1));
    assert(weights[7]@ == halves_of(tensors[weight_name(7)].1));
    assert(weights[8]@ == halves_of(tensors[weight_name(8)].1));
    assert(weights[9]@ == halves_of(tensors[weight_name(9)].1));
    assert(weights[10]@ == halves_of(tensors[weight_name(10)].1));
    assert(weights[11]@ == halves_of(tensors[weight_name(11)].1));
    assert(weights[12]@ == halves_of(tensors[weight_name(12)].1));
}

/// A sixteen-bit number is two bytes, the lower half first.
pub proof fn law_halves_are_pairs_of_bytes(bytes: Seq<u8>, i: int)
    requires
        0 <= i,
        2 * i + 1 < bytes.len(),
    ensures
        bytes.len() - 1 <= 2 * halves_of(bytes).len() <= bytes.len(),
        halves_of(bytes)[i] as int % 256 == bytes[2 * i],
        halves_of(bytes)[i] as int / 256 == bytes[2 * i + 1],
{
}

/// Of several faults the first weight's is named; a file is at fault where a weight is
/// missing or is not of sixteen-bit numbers, or else where the mask is missing.
pub proof fn law_first_fault_is_named(tensors: Map<Seq<char>, (bool, Seq<u8>)>, i: int)
    requires
        0 <= i <= 13,
        forall|j: int|
            0 <= j < i ==> tensors.contains_key(#[trigger] weight_name(j))
                && tensors[weight_name(j)].0,
    ensures
        i < 13 && !tensors.contains_key(weight_name(i)) ==> file_fault(tensors) == Some(
            Eagle3LoadError::MissingWeight(i as usize),
        ),
        i < 13 && tensors.contains_key(weight_name(i)) && !tensors[weight_name(i)].0 ==> file_fault(
            tensors,
        ) == Some(Eagle3LoadError::NotBf16(i as usize)),
        i == 13 ==> file_fault(tensors) == (if tensors.contains_key("t2d"@) {
            None::<Eagle3LoadError>
        } else {
            Some(Eagle3LoadError::MissingMask)
        }),
{
    lemma_no_fault_before(tensors, i);
    if i < 13 && weight_fault(tensors, i + 1) is Some {
        lemma_fault_stays(tensors, i + 1, 13);
    }
}

proof fn lemma_no_fault_before(tensors: Map<Seq<char>, (bool, Seq<u8>)>, n: int)
    requires
        0 <= n,
        forall|j: int|
            0 <= j < n ==> tensors.contains_key(#[trigger] weight_name(j))
                && tensors[weight_name(j)].0,
    ensures
        weight_fault(tensors, n) is None,
    decreases n,
{
    if n > 0 {
        lemma_no_fault_before(tensors, n - 1);
        assert(tensors.contains_key(weight_name(n - 1)));
    }
}

/// A file whose ends do not fit has no readable tensors, and any other has those that it
/// holds.
pub proof fn law_ends_are_checked_first(file: Seq<u8>)
    ensures
        !ends_fit(file) ==> readable_tensors(file) is None,
        ends_fit(file) ==> readable_tensors(file) == file_tensors(file),
{
}

/// The draft tokens are the tokens that the mask marks, in order: a marked token's draft
/// number is how many are marked before it, and no other token has one.
pub proof fn law_marked_tokens_are_numbered(mask: Seq<u8>, n: int, t: int)
    requires
        0 <= t < n <= mask.len(),
        mask.len() <= 0x1_0000_0000,
    ensures
        known_before(mask, 0) == 0,
        mask[t] != 0 ==> known_before(mask, t + 1) == known_before(mask, t) + 1,
        mask[t] == 0 ==> known_before(mask, t + 1) == known_before(mask, t),
        known_tokens(mask, n).len() == known_before(mask, n),
        mask[t] != 0 ==> 0 <= known_before(mask, t) < known_tokens(mask, n).len()
            && known_tokens(mask, n)[known_before(mask, t)] == t,
        draft_numbers(mask).len() == mask.len(),
        mask[t] != 0 && known_before(mask, t) < 0x8000_0000 ==> draft_numbers(mask)[t]
            == known_before(mask, t),
        mask[t] == 0 ==> draft_numbers(mask)[t] == -1,
    decreases n,
{
    lemma_count_is_len(mask, t);
    lemma_count_is_len(mask, n);
    if t < n - 1 {
        law_marked_tokens_are_numbered(mask, n - 1, t);
        lemma_count_is_len(mask, n - 1);
    }
}

proof fn lemma_count_is_len(mask: Seq<u8>, n: int)
    ensures
        known_tokens(mask, n).len() == known_before(mask, n),
    decreases n,
{
    if n > 0 {
        lemma_count_is_len(mask, n - 1);
    }
}

/// A weight that projects the doubled hidden size to so many heads is found to have them.
pub proof fn law_heads_are_counted(heads: int, hidden_size: int, head_dim: int)
    requires
        heads >= 0,
        hidden_size > 0,
        head_dim > 0,
    ensures
        heads_in((heads * head_dim) * (2 * hidden_size), hidden_size, head_dim) == heads,
{
    let row = 2 * hidden_size;
    let wide = heads * head_dim;
    vstd::arithmetic::div_mod::lemma_div_multiples_vanish(wide, row);
    assert(wide * row == row * wide) by (nonlinear_arith);
    vstd::arithmetic::div_mod::lemma_div_multiples_vanish(heads, head_dim);
    assert(heads * head_dim == head_dim * heads) by (nonlinear_arith);
}

/// A new head reads the layers 2, the middle and the third from last, has the heads that
/// its projections are made for, knows the tokens that the mask marks, and has drafted
/// nothing.
pub proof fn law_new_head_fits_its_weights<F>(
    head: Eagle3Head<F>,
    mask: Seq<u8>,
    target: &Config,
    config_text: Seq<char>,
    heads: int,
    kv_heads: int,
    inner: int,
)
    requires
        head.is_new(mask, target, config_text),
        target.num_layers >= 3,
        target.hidden_size > 0,
        target.head_dim > 0,
        heads >= 0,
        kv_heads >= 0,
        inner >= 0,
        head.q_proj@.len() == (heads * target.head_dim) * (2 * target.hidden_size),
        head.k_proj@.len() == (kv_heads * target.head_dim) * (2 * target.hidden_size),
        head.mlp_gate@.len() == inner * target.hidden_size,
    ensures
        head.hidden_size == target.hidden_size,
        head.head_dim == target.head_dim,
        head.num_heads == heads,
        head.num_kv_heads == kv_heads,
        head.intermediate_size == inner,
        head.extract_layers@[0] == 2,
        head.extract_layers@[1] == target.num_layers / 2,
        head.extract_layers@[2] == target.num_layers - 3,
        head.mrope_interleaved == says_interleaved(config_text),
        head.d2t@ == known_tokens(mask, mask.len() as int),
        head.t2d@ == draft_numbers(mask),
        head.kv_seq_len == 0,
        head.kv_keys@.len() == kv_heads,
        head.kv_values@.len() == kv_heads,
{
    let hs = target.hidden_size as int;
    law_heads_are_counted(heads, hs, target.head_dim as int);
    law_heads_are_counted(kv_heads, hs, target.head_dim as int);
    vstd::arithmetic::div_mod::lemma_div_multiples_vanish(inner, hs);
    assert(inner * hs == hs * inner) by (nonlinear_arith);
}

/// A configuration says that rotations turn neighbours if it has the entry with the value
/// true, with a space behind the colon or without one.
pub proof fn law_interleaving_is_an_entry(text: Seq<char>, i: int)
    requires
        0 <= i,
    ensures
        occurs_at(text, "\"mrope_interleaved\": true"@, i) || occurs_at(
            text,
            "\"mrope_interleaved\":true"@,
            i,
        ) ==> says_interleaved(text),
        says_interleaved(text) ==> exists|p: int|
            #![trigger occurs_at(text, "\"mrope_interleaved\": true"@, p)]
            #![trigger occurs_at(text, "\"mrope_interleaved\":true"@, p)]
            occurs_at(text, "\"mrope_interleaved\": true"@, p) || occurs_at(
                text,
                "\"mrope_interleaved\":true"@,
                p,
            ),
{
    law_first_place_is_the_first(text, "\"mrope_interleaved\": true"@, 0, i);
    law_first_place_is_the_first(text, "\"mrope_interleaved\":true"@, 0, i);
}

/// A value ends at the first comma, closing brace or line end, or with the text.
pub proof fn law_values_end_at_the_first_mark(value: Seq<char>, i: int, e: int)
    requires
        0 <= i <= e <= value.len(),
        forall|j: int|
            i <= j < e ==> (#[trigger] value[j]) != ',' && value[j] != '}' && value[j] != '\n',
        e == value.len() || value[e] == ',' || value[e] == '}' || value[e] == '\n',
    ensures
        value_end(value, i) == e,
    decreases e - i,
{
    if i < e {
        assert(value[i] != ',' && value[i] != '}' && value[i] != '\n');
        law_values_end_at_the_first_mark(value, i + 1, e);
    }
}

/// The base of the rotations is what stands behind the first colon behind the first
/// mention of its name, without white space, up to the next comma, closing brace or line
/// end.
pub proof fn law_theta_stands_behind_its_name(text: Seq<char>, name: int, colon: int, e: int)
    requires
        occurs_at(text, "\"rope_theta\""@, name),
        forall|i: int| 0 <= i < name ==> !#[trigger] occurs_at(text, "\"rope_theta\""@, i),
        occurs_at(text, ":"@, colon),
        name <= colon,
        forall|i: int| name <= i < colon ==> !#[trigger] occurs_at(text, ":"@, i),
        0 <= e <= trimmed(text.skip(colon + 1)).len(),
        forall|j: int|
            0 <= j < e ==> (#[trigger] trimmed(text.skip(colon + 1))[j]) != ',' && trimmed(
                text.skip(colon + 1),
            )[j] != '}' && trimmed(text.skip(colon + 1))[j] != '\n',
        e == trimmed(text.skip(colon + 1)).len() || trimmed(text.skip(colon + 1))[e] == ','
            || trimmed(text.skip(colon + 1))[e] == '}' || trimmed(text.skip(colon + 1))[e] == '\n',
    ensures
        theta_text(text) == Some(trimmed(trimmed(text.skip(colon + 1)).take(e))),
{
    law_first_place_is_the_first(text, "\"rope_theta\""@, 0, name);
    let found = first_place(text, "\"rope_theta\""@, 0);
    assert(found is Some);
    assert(!(found->0 < name));
    assert(found == Some(name));
    law_first_place_is_the_first(text, ":"@, name, colon);
    let sign = first_place(text, ":"@, name);
    assert(sign is Some);
    assert(sign == Some(colon));
    law_values_end_at_the_first_mark(trimmed(text.skip(colon + 1)), 0, e);
}

/// A configuration that does not mention the base of the rotations has none.
pub proof fn law_theta_needs_its_name(text: Seq<char>)
    requires
        forall|i: int| 0 <= i ==> !#[trigger] occurs_at(text, "\"rope_theta\""@, i),
    ensures
        theta_text(text) is None,
{
    law_first_place_is_the_first(text, "\"rope_theta\""@, 0, 0);
    if let Some(p) = first_place(text, "\"rope_theta\""@, 0) {
        assert(!occurs_at(text, "\"rope_theta\""@, p));
    }
}

/// The draft is found in one pass: a number takes the place of the best so far if and
/// only if it is greater, and before the first number the best is minus infinity.
pub proof fn law_draft_goes_through_the_logits(logits: Seq<u32>, n: int)
    requires
        0 <= n < logits.len(),
    ensures
        best_draft(logits, 0) == (0int, 0xff80_0000u32),
        exceeds(logits[n], best_draft(logits, n).1) ==> best_draft(logits, n + 1) == (
            n,
            logits[n],
        ),
        !exceeds(logits[n], best_draft(logits, n).1) ==> best_draft(logits, n + 1) == best_draft(
            logits,
            n,
        ),
{
}

/// A token's draft is read off the one map and a draft's token off the other; a token
/// that the map does not reach, or marks with a negative number, has none.
pub proof fn law_tokens_are_read_off_the_maps<F>(head: Eagle3Head<F>, t: u32, d: u32)
    requires
        d < head.d2t@.len(),
        0 <= head.d2t@[d as int] <= u32::MAX,
    ensures
        t >= head.t2d@.len() ==> head.draft_of(t) is None,
        t < head.t2d@.len() && head.t2d@[t as int] < 0 ==> head.draft_of(t) is None,
        t < head.t2d@.len() && head.t2d@[t as int] >= 0 ==> head.draft_of(t) == Some(
            head.t2d@[t as int] as u32,
        ),
        head.target_of(d) == head.d2t@[d as int],
{
}

/// A head's part of a row is its own stretch.
pub proof fn law_parts_are_stretches<F>(row: Seq<F>, h: int, heads: int, head_dim: int, d: int)
    requires
        0 <= h < heads,
        0 <= d < head_dim,
        row.len() == heads * head_dim,
    ensures
        head_part(row, h, head_dim).len() == head_dim,
        head_part(row, h, head_dim)[d] == row[h * head_dim + d],
{
    assert(0 <= h * head_dim && h * head_dim + head_dim <= heads * head_dim) by (nonlinear_arith)
        requires
            0 <= h < heads,
            head_dim > 0,
    ;
}

/// The head keeps keys and values of every drafted token in every head, and of no other.
pub proof fn law_cache_has_every_drafted_token<F>(head: Eagle3Head<F>, h: int)
    requires
        head.wf(),
        0 <= h < head.num_kv_heads,
    ensures
        head.kv_keys@.len() == head.num_kv_heads,
        head.kv_values@.len() == head.num_kv_heads,
        head.kv_keys@[h]@.len() == head.kv_seq_len * head.head_dim,
        head.kv_values@[h]@.len() == head.kv_seq_len * head.head_dim,
{
}

/// Two states of one model have the same weights, maps and sizes.
pub proof fn law_same_model_keeps_the_weights<F>(head: Eagle3Head<F>, other: Eagle3Head<F>)
    requires
        head.same_model(other),
    ensures
        head.fc_weight == other.fc_weight,
        head.hidden_norm == other.hidden_norm,
        head.input_layernorm == other.input_layernorm,
        head.q_proj == other.q_proj,
        head.k_proj == other.k_proj,
        head.v_proj == other.v_proj,
        head.o_proj == other.o_proj,
        head.post_attn_norm == other.post_attn_norm,
        head.mlp_gate == other.mlp_gate,
        head.mlp_up == other.mlp_up,
        head.mlp_down == other.mlp_down,
        head.final_norm == other.final_norm,
        head.lm_head == other.lm_head,
        head.d2t == other.d2t,
        head.t2d == other.t2d,
        head.hidden_size == other.hidden_size,
        head.num_heads == other.num_heads,
        head.num_kv_heads == other.num_kv_heads,
        head.head_dim == other.head_dim,
        head.intermediate_size == other.intermediate_size,
        head.mrope_interleaved == other.mrope_interleaved,
        head.extract_layers == other.extract_layers,
{
}

} // verus!
