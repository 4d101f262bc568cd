//! Forward passes and the layers they run.

use herbert_backend::config::Config;
use herbert_backend::generic_attention::{
    DecodeHeads, GenericAttention, KernelChoice, PrefillKernel,
};
use herbert_backend::generic_layer::{
    conv_source, enable_narrow_queries, prefill_state, projection_parts, roll_state, BlockKind,
    DeltaNetShape, GenericConvolution, GenericDecoderLayer, LayerBlock, LayerError, LayerShape,
    LayerStep, NormType,
};
use herbert_backend::generic_mlp::{GenericMLP, MlpActivation};
use herbert_backend::generic_model::{
    capture_hidden, choose_token, count_decoded, Buffer, Chunk, DecodePlan, DeepStackInfo,
    GenericModel, ModelError, Pass, PassAction, PassOutput, RopeSource,
};
use herbert_backend::generic_moe::GenericFFN;
use herbert_backend::kv_cache::{CpuKvCache, KvQuantType};

fn config() -> Config {
    Config {
        num_layers: 3,
        hidden_size: 2,
        intermediate_size: 4,
        moe_intermediate_size: None,
        is_moe: false,
        vocab_size: 4,
        num_attention_heads: 2,
        num_key_value_heads: 1,
        head_dim: 2,
        q_dim: 4,
        kv_dim: 2,
        conv_l_cache: 0,
        deltanet_layers: vec![],
        deltanet_recurrent_size: 0,
        deltanet_conv_dim: 0,
        linear_conv_kernel_dim: None,
        max_position_embeddings: 8,
        rotary_ndims: 2,
    }
}

fn model() -> GenericModel<f32, (), ()> {
    GenericModel {
        embed_tokens: vec![0x3F80, 0x4000, 0x4040, 0x4080, 0, 0, 0xBF80, 0x3F00],
        decoder_layers: vec![(), (), ()],
        norm: vec![0; 2],
        norm_bias: None,
        lm_head: (),
        lm_head_bias: None,
        config: config(),
        cos_cache: vec![1.0; 8],
        sin_cache: vec![0.0; 8],
        sliding_cos_cache: vec![],
        sliding_sin_cache: vec![],
        inv_freq: vec![],
        mrope_pattern: vec![],
    }
}

fn floats(rows: &[u32]) -> Vec<f32> {
    rows.iter().map(|&b| f32::from_bits(b)).collect()
}

fn actions(mut pass: Pass) -> Vec<PassAction> {
    let mut taken = Vec::new();
    loop {
        let action = pass.next_action();
        if action == PassAction::Done {
            return taken;
        }
        taken.push(action);
    }
}

#[test]
fn prefill_runs_the_layers_between_two_buffers() {
    let (pass, rows) = match model().prefill_with_token(&[1, 0], 3) {
        Ok(started) => started,
        Err(e) => panic!("{:?}", e),
    };
    assert_eq!(floats(&rows), vec![3.0, 4.0, 1.0, 2.0]);
    assert_eq!(pass.rope, RopeSource::OfLayer);
    assert_eq!(
        actions(pass),
        vec![
            PassAction::RunLayer { layer: 0, from: Buffer::A, to: Buffer::B },
            PassAction::RunLayer { layer: 1, from: Buffer::B, to: Buffer::A },
            PassAction::RunLayer { layer: 2, from: Buffer::A, to: Buffer::B },
            PassAction::Settle,
            PassAction::Emit { buffer: Buffer::B, row: 1 },
        ]
    );
}

#[test]
fn checking_drafts_uses_every_row() {
    let (pass, _) = match model().verify_draft_tokens(&[1, 2], 0) {
        Ok(started) => started,
        Err(e) => panic!("{:?}", e),
    };
    let taken = actions(pass);
    assert_eq!(taken[4], PassAction::Emit { buffer: Buffer::B, row: 0 });
    assert_eq!(taken[5], PassAction::Emit { buffer: Buffer::B, row: 1 });
    assert_eq!(taken.len(), 6);
}

#[test]
fn prefill_is_refused_in_order() {
    let m = model();
    assert_eq!(m.prefill_with_token(&[], 0).err(), Some(ModelError::EmptyInput));
    assert_eq!(
        m.prefill_with_token(&[9, 1], 7).err(),
        Some(ModelError::ContextExceeded { end_pos: 9, max_pos: 8 })
    );
    assert_eq!(
        m.prefill_with_token(&[1, 7, 9], 0).err(),
        Some(ModelError::TokenOutOfRange { token: 7, vocab_size: 4 })
    );
    assert_eq!(
        m.prefill_with_token_decomposed(&[7], 7).err(),
        Some(ModelError::TokenOutOfRange { token: 7, vocab_size: 4 })
    );
    assert_eq!(m.prefill_with_token_decomposed(&[], 0).err(), Some(ModelError::EmptyInput));
    assert!(m.prefill_with_token_decomposed(&[1], 7).is_ok());
    assert_eq!(
        m.prefill_with_token_decomposed(&[7], 8).err(),
        Some(ModelError::ContextExceeded { end_pos: 9, max_pos: 8 })
    );
}

#[test]
fn positions_must_match_the_tokens() {
    let m = model();
    assert_eq!(
        m.verify_draft_tokens_mrope(&[1, 2], 3, 0).err(),
        Some(ModelError::PositionsMismatch { positions: 3, tokens: 2 })
    );
    assert_eq!(m.verify_draft_tokens_mrope(&[], 3, 0).err(), Some(ModelError::EmptyInput));
    match m.verify_draft_tokens_mrope(&[1, 2], 2, 0) {
        Ok((pass, _)) => assert_eq!((pass.rope, pass.output), (RopeSource::Positions, PassOutput::AllLogits)),
        Err(e) => panic!("{:?}", e),
    }
}

#[test]
fn embeddings_must_be_whole_rows() {
    let m = model();
    assert_eq!(m.prefill_with_embeds_mrope(4, 0, 0).err(), Some(ModelError::EmptyInput));
    assert_eq!(
        m.prefill_with_embeds_mrope(4, 2, 7).err(),
        Some(ModelError::ContextExceeded { end_pos: 9, max_pos: 8 })
    );
    assert_eq!(
        m.prefill_with_embeds_mrope(5, 2, 0).err(),
        Some(ModelError::EmbedsMismatch { len: 5, seq_len: 2, hidden_size: 2 })
    );
    assert!(m.prefill_with_embeds_mrope(4, 2, 0).is_ok());
    assert_eq!(m.prefill_with_embeds(1, 0).err(), Some(ModelError::EmptyInput));
    assert_eq!(
        m.prefill_with_embeds(5, 100).err(),
        Some(ModelError::EmbedsNotDivisible { len: 5, hidden_size: 2 })
    );
    assert_eq!(
        m.prefill_with_embeds(6, 6).err(),
        Some(ModelError::ContextExceeded { end_pos: 9, max_pos: 8 })
    );
    assert_eq!(m.prefill_with_embeds(6, 0).map(|p| p.seq_len), Ok(3));
}

#[test]
fn hidden_states_leave_the_cache_alone() {
    let m = model();
    let mut cache = m.create_kv_cache(Some(4), 2, 0.0);
    let (pass, _) = match m.prefill_for_embedding(&[1, 2, 3]) {
        Ok(started) => started,
        Err(e) => panic!("{:?}", e),
    };
    assert_eq!((pass.rope, pass.output), (RopeSource::Main, PassOutput::LastHidden));
    pass.settle(&mut cache.kv);
    assert_eq!(cache.kv.seq_len, 0);

    let started = m.prefill_all_embeddings(&[1, 2], &mut cache.kv, true);
    assert!(cache.kv.bidirectional);
    let (all, _) = match started {
        Ok(started) => started,
        Err(e) => panic!("{:?}", e),
    };
    assert_eq!(actions(all).len(), 3 + 1 + 2);
    all.settle(&mut cache.kv);
    assert_eq!((cache.kv.seq_len, cache.kv.bidirectional), (0, false));

    cache.kv.bidirectional = true;
    assert!(m.prefill_all_embeddings(&[], &mut cache.kv, true).is_err());
    assert!(cache.kv.bidirectional);
    assert!(m.prefill_all_embeddings(&[9], &mut cache.kv, true).is_err());
    assert!(!cache.kv.bidirectional);
}

#[test]
fn logits_count_their_tokens() {
    let m = model();
    let mut cache = m.create_kv_cache_with_quant(None, KvQuantType::F32, 1, 0.0);
    assert_eq!(cache.kv.kv_quant, KvQuantType::F32);
    if let Ok((pass, _)) = m.prefill_with_token(&[1, 2], 0) {
        pass.settle(&mut cache.kv);
    }
    assert_eq!(cache.kv.seq_len, 2);
    count_decoded(&mut cache.kv, false);
    count_decoded(&mut cache.kv, true);
    assert_eq!((cache.kv.seq_len, cache.kv.text_pos), (4, 1));
}

#[test]
fn decoding_is_refused_in_order() {
    let mut m = model();
    assert_eq!(
        m.decode_step(9, 8).err(),
        Some(ModelError::PositionExceeded { pos: 8, max_pos: 8 })
    );
    assert_eq!(
        m.decode_step(9, 3).err(),
        Some(ModelError::TokenOutOfRange { token: 9, vocab_size: 4 })
    );
    assert_eq!(m.decode_step(1, 3), Ok(DecodePlan { pos: 3, rope_start: 3, rope_end: 4 }));
    m.sin_cache.truncate(3);
    assert_eq!(
        m.decode_step(1, 3).err(),
        Some(ModelError::RopeCacheExceeded { pos: 3, max_pos: 8 })
    );
    m.config.max_position_embeddings = usize::MAX;
    m.config.rotary_ndims = 8;
    assert_eq!(m.decode_step(1, usize::MAX / 2).err(), Some(ModelError::RopeIndexOverflow));
    assert_eq!(m.decode_step_mrope(1, 3), Ok(3));
    assert_eq!(
        m.decode_step_mrope(4, 3).err(),
        Some(ModelError::TokenOutOfRange { token: 4, vocab_size: 4 })
    );
    m.config.max_position_embeddings = 3;
    assert_eq!(
        m.decode_step_mrope(1, 3).err(),
        Some(ModelError::PositionExceeded { pos: 3, max_pos: 3 })
    );
}

#[test]
fn chunks_cover_the_prompt() {
    let m = model();
    assert_eq!(
        m.prefill_with_token_chunked(7, 0, 3),
        Ok(vec![
            Chunk { start: 0, end: 3, is_last: false },
            Chunk { start: 3, end: 6, is_last: false },
            Chunk { start: 6, end: 7, is_last: true },
        ])
    );
    let whole = Ok(vec![Chunk { start: 0, end: 7, is_last: true }]);
    assert_eq!(m.prefill_with_token_chunked(7, 0, 0), whole);
    assert_eq!(m.prefill_with_token_chunked(7, 0, 7), whole);
    assert_eq!(
        m.prefill_with_token_chunked(7, 2, 3),
        Err(ModelError::ContextExceeded { end_pos: 9, max_pos: 8 })
    );
}

#[test]
fn the_last_greatest_logit_is_chosen() {
    let logits: Vec<u32> =
        [0.5f32, 2.0, -1.0, 2.0, 1.0].iter().map(|v| v.to_bits()).collect();
    assert_eq!(choose_token(&logits), Ok(3));
    assert_eq!(choose_token(&[]), Err(ModelError::EmptyLogits));
    let odd: Vec<u32> = [5.0f32, f32::NAN, 1.0].iter().map(|v| v.to_bits()).collect();
    assert_eq!(choose_token(&odd), Ok(2));
}

#[test]
fn every_sixth_layer_looks_all_the_way_back() {
    let mut m = model();
    assert_eq!(m.rope_cache_for_layer(0).0.len(), 8);
    m.sliding_cos_cache = vec![0.0; 3];
    m.sliding_sin_cache = vec![0.0; 4];
    assert_eq!(m.rope_cache_for_layer(0).0.len(), 3);
    assert_eq!(m.rope_cache_for_layer(4).1.len(), 4);
    assert_eq!(m.rope_cache_for_layer(5).0.len(), 8);
    assert_eq!(m.rope_cache_for_layer(6).0.len(), 3);
    assert!(!m.is_mrope());
    m.inv_freq = vec![1.0];
    assert!(m.is_mrope());
    match m.prefill_for_embedding(&[1]) {
        Ok((pass, _)) => assert_eq!(pass.rope, RopeSource::Positions),
        Err(e) => panic!("{:?}", e),
    }
}

#[test]
fn an_embedding_is_copied_to_the_front() {
    let m = model();
    let mut dst = vec![7u32; 3];
    m.embed_lookup(3, &mut dst);
    assert_eq!(floats(&dst[..2]), vec![-1.0, 0.5]);
    assert_eq!(dst[2], 7);
    assert_eq!(m.embed_tokens().len(), 8);
    assert_eq!(m.embed_run(&[3]).map(|rows| floats(&rows)), Ok(vec![-1.0, 0.5]));
}

#[test]
fn hidden_states_are_captured_where_asked_for() {
    let mut cache = CpuKvCache::new(&config(), None, 1, 0.0f32);
    capture_hidden(&mut cache.ctx, 1, &vec![1.0, 2.0]);
    assert!(cache.ctx.eagle3_hidden_states[0].is_empty());
    cache.ctx.eagle3_active = true;
    cache.ctx.eagle3_extract_layers = [1, 2, 1];
    capture_hidden(&mut cache.ctx, 1, &vec![1.0, 2.0]);
    assert_eq!(cache.ctx.eagle3_hidden_states, [vec![1.0, 2.0], vec![], vec![1.0, 2.0]]);
}

#[test]
fn features_belong_to_the_first_layers() {
    let info = DeepStackInfo { image_token_indices: vec![1], layer_features: vec![vec![1.0f32]] };
    assert_eq!(info.features_for(0), Some(&vec![1.0]));
    assert_eq!(info.features_for(1), None);
}

#[test]
fn prefill_and_decode_leave_the_same_columns() {
    let (channels, width) = (2, 3);
    let rows: Vec<i32> = (1..=10).collect();
    let mut rolled = vec![0; channels * width];
    for t in 0..5 {
        let mut at_once = vec![9; channels * width];
        prefill_state(&mut at_once, &rows, t, channels, width, 0);
        assert_eq!(at_once, rolled);
        roll_state(&mut rolled, &rows[t * channels..(t + 1) * channels], width);
        for h in 0..channels {
            for tap in 0..width {
                let expected = match conv_source(t, tap, width) {
                    Some(s) => rows[s * channels + h],
                    None => 0,
                };
                assert_eq!(rolled[h * width + tap], expected);
            }
        }
    }
    assert_eq!(rolled, vec![5, 7, 9, 6, 8, 10]);
    assert_eq!(projection_parts(2, 5), (30, 35, 40));
}

fn deltanet() -> DeltaNetShape {
    DeltaNetShape {
        num_k_heads: 2,
        num_v_heads: 6,
        head_k_dim: 4,
        head_v_dim: 8,
        conv_kernel_size: 4,
        hidden_size: 16,
    }
}

#[test]
fn value_heads_have_windows_of_their_own() {
    let shape = deltanet();
    assert_eq!((shape.key_dim(), shape.value_dim(), shape.conv_dim()), (8, 48, 64));
    assert_eq!(shape.heads_per_group(), 3);
    let mut end = 0;
    for vh in 0..6 {
        let w = shape.head_window(vh);
        assert_eq!((w.state_start, w.state_len), (end, 32));
        assert_eq!((w.value_start, w.key_start), (vh * 8, vh / 3 * 4));
        end = w.state_start + w.state_len;
    }
    assert_eq!(end, 192);
    assert_eq!((shape.recurrence_workers(4), shape.recurrence_workers(99), shape.recurrence_workers(0)), (4, 6, 1));
    assert!(!shape.uses_wide_recurrence(true));
    let mut wide = deltanet();
    wide.head_v_dim = 128;
    assert!(wide.uses_wide_recurrence(true) && !wide.uses_wide_recurrence(false));
}

#[test]
fn layers_take_their_steps_in_order() {
    let mut shape = LayerShape {
        block: BlockKind::Attention,
        norm_type: NormType::RMSNorm,
        post_attention_bias: false,
        four_norms: false,
    };
    assert_eq!(
        shape.forward_decode(),
        vec![
            LayerStep::InputNorm,
            LayerStep::Block,
            LayerStep::AddBlockAndNorm,
            LayerStep::FeedForward,
            LayerStep::AddFeedForward,
        ]
    );
    assert_eq!(
        shape.forward_prefill(),
        vec![
            LayerStep::InputNorm,
            LayerStep::Block,
            LayerStep::AddBlock,
            LayerStep::PostAttentionNorm,
            LayerStep::FeedForward,
            LayerStep::AddFeedForward,
        ]
    );
    assert_eq!(shape.forward_decode_through_norm2().len(), 3);
    shape.norm_type = NormType::GemmaRMSNorm;
    assert_eq!(shape.forward_decode(), shape.forward_prefill());
    assert_eq!(shape.forward_decode_through_norm2().len(), 4);
    shape.four_norms = true;
    let four = shape.forward_decode();
    assert_eq!(four, shape.forward_prefill());
    assert_eq!(four[2], LayerStep::NormBlockOutput);
    assert_eq!(four[4], LayerStep::PreFeedForwardNorm);
    assert_eq!(four[6], LayerStep::NormFeedForwardOutput);
}

#[test]
fn only_attention_runs_in_two_phases() {
    let mut shape = LayerShape {
        block: BlockKind::Attention,
        norm_type: NormType::RMSNorm,
        post_attention_bias: false,
        four_norms: false,
    };
    assert_eq!(shape.forward_prefill_phase_a(), Ok(()));
    shape.block = BlockKind::Convolution;
    assert_eq!(shape.forward_prefill_phase_a(), Err(LayerError::NotAttention));
    shape.block = BlockKind::GatedDeltaNet;
    assert_eq!(shape.forward_prefill_phase_a(), Err(LayerError::NotAttention));
}

fn attention() -> GenericAttention<f32, u8> {
    GenericAttention {
        q_proj: 0,
        k_proj: 0,
        v_proj: 0,
        o_proj: 0,
        q_norm: Some(vec![0; 2]),
        k_norm: Some(vec![0; 2]),
        q_bias: None,
        k_bias: None,
        v_bias: Some(vec![0.0; 2]),
        o_bias: None,
        num_heads: 8,
        num_kv_heads: 1,
        head_dim: 2,
        rotary_ndims: 2,
        head_to_kv_head: vec![0; 8],
        hidden_size: 2,
        q_dim: 16,
        kv_dim: 2,
        rms_norm_eps: 1e-6,
        use_rope: true,
        attn_scale: None,
        use_gemma_qk_norm: false,
        has_output_gate: true,
        use_q_bf16: false,
    }
}

fn layer(block: LayerBlock<f32, u8>) -> GenericDecoderLayer<f32, u8, ()> {
    GenericDecoderLayer {
        input_layernorm: vec![0; 2],
        input_layernorm_bias: None,
        block,
        post_attention_layernorm: vec![0; 2],
        post_attention_layernorm_bias: None,
        pre_feedforward_layernorm: None,
        post_feedforward_layernorm: None,
        ffn: GenericFFN::Dense(GenericMLP {
            gate_proj: 0,
            up_proj: 0,
            down_proj: 0,
            hidden_size: 2,
            intermediate_size: 4,
            activation: MlpActivation::SwiGLU,
        }),
        hidden_size: 2,
        rms_norm_eps: 1e-6,
        norm_type: NormType::RMSNorm,
    }
}

fn convolution() -> LayerBlock<f32, u8> {
    LayerBlock::Convolution(GenericConvolution {
        in_proj: 0,
        conv_kernel: vec![0.0; 6],
        out_proj: 0,
        hidden_size: 2,
        conv_l_cache: 3,
    })
}

#[test]
fn blocks_know_their_steps() {
    let block = attention();
    let shape = block.shape();
    assert!(shape.has_output_gate && shape.v_bias && shape.q_norm && !shape.q_bias);
    assert_eq!(block.forward_decode(false), shape.forward_decode(false));
    assert_eq!(block.forward_prefill(true), shape.forward_prefill(true));
    assert_eq!(block.forward_prefill_phase_a(), shape.forward_prefill_phase_a());
    assert_eq!(block.forward_prefill_phase_b(true), shape.forward_prefill_phase_b(true));
    assert_eq!(block.projection_width(), 32);
    assert_eq!(block.decode_heads(256, 4), DecodeHeads::Divided(4));
    let choice =
        KernelChoice { avx512f: true, avx512bf16: false, avx2_fma: true, two_pass: false };
    assert_eq!(
        block.prefill_kernel(&choice, KvQuantType::INT8, false),
        PrefillKernel::Fused { narrow: false }
    );
}

#[test]
fn layers_know_their_steps() {
    let first = layer(LayerBlock::Attention(attention()));
    assert_eq!(first.shape().block, BlockKind::Attention);
    assert_eq!(first.forward_decode(), first.shape().forward_decode());
    assert_eq!(first.forward_decode_through_norm2().len(), 3);
    assert!(first.forward_prefill_phase_a().is_ok());
    let mut phases = vec![LayerStep::InputNorm];
    phases.extend(first.forward_prefill_phase_b());
    assert_eq!(phases, first.forward_prefill());
    let second = layer(convolution());
    assert_eq!(second.forward_prefill_phase_a().err(), Some(LayerError::NotAttention));
}

#[test]
fn narrow_queries_are_for_attention_alone() {
    let mut layers = vec![layer(convolution()), layer(LayerBlock::Attention(attention()))];
    enable_narrow_queries(&mut layers);
    assert_eq!(layers[0].block.kind(), BlockKind::Convolution);
    match &layers[1].block {
        LayerBlock::Attention(block) => assert!(block.use_q_bf16 && block.use_rope),
        _ => panic!("the block has changed"),
    }
}
