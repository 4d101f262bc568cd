//! The backend around a model, and speculative decoding.

use herbert_backend::config::Config;
use herbert_backend::cpu_backend::{
    combine_deepstack, count_text, decode_worker_cap, enable_eagle3_extraction, image_token_indices,
    plan_prefill, prefill_vl, ready_cache, requested_threads, reserve_for, should_evict,
    take_eagle3_hidden_states, text_positions, text_token_count, truncate_kv, BackendStateError,
    ConcurrentBackend, GenericCpuBackend, LoadSettings, PrefillRun, ThreadPlan, VisionEmbedding,
};
use herbert_backend::eagle3::{
    choose_draft, decode_bf16, divides_logits, extract_layers, infer_sizes, is_interleaved, name_of_weight,
    read_weights, rope_theta_text, token_maps, DraftError, DraftPlan, DraftSource, Eagle3Head,
    Eagle3LoadError, HeadSizes, NUM_WEIGHTS,
};
use herbert_backend::eagle3_speculative::{
    DraftRequest, Eagle3SpecDecoder, Judgement, SpecError,
};
use herbert_backend::h2o::select_kept;
use herbert_backend::kv_cache::{CpuKvCache, KvQuantType, KvRows};
use safetensors::tensor::{serialize, Dtype, TensorView};

fn config() -> Config {
    Config {
        num_layers: 8,
        hidden_size: 2,
        intermediate_size: 4,
        moe_intermediate_size: None,
        is_moe: false,
        vocab_size: 6,
        num_attention_heads: 2,
        num_key_value_heads: 1,
        head_dim: 2,
        q_dim: 4,
        kv_dim: 2,
        conv_l_cache: 0,
        deltanet_layers: vec![],
        deltanet_recurrent_size: 0,
        deltanet_conv_dim: 0,
        linear_conv_kernel_dim: None,
        max_position_embeddings: 64,
        rotary_ndims: 2,
    }
}

fn settings() -> LoadSettings {
    LoadSettings {
        num_threads: None,
        decode_threads: None,
        prefill_chunk_size: None,
        kv_reserve_tokens: Some(5),
        show_progress: true,
        kv_quant: KvQuantType::INT8,
        kv_budget: Some(100),
    }
}

#[test]
fn threads_are_asked_for() {
    assert_eq!(requested_threads(Some(4), Some("9")), Some(4));
    assert_eq!(requested_threads(None, Some("9")), Some(9));
    assert_eq!(requested_threads(None, Some(" 9")), None);
    assert_eq!(requested_threads(Some(0), Some("9")), None);
    assert_eq!(requested_threads(None, None), None);
    assert_eq!(decode_worker_cap(None, 6), 4);
    assert_eq!(decode_worker_cap(None, 1), 1);
    assert_eq!(decode_worker_cap(None, 64), 8);
    assert_eq!(decode_worker_cap(Some(0), 64), 0);
    assert_eq!(decode_worker_cap(Some(20), 64), 20);
}

#[test]
fn loading_takes_over_the_settings() {
    let mut backend: GenericCpuBackend<u8, ()> = GenericCpuBackend::new();
    assert!(backend.model.is_none() && backend.kv_quant == KvQuantType::BF16);
    let plan = backend.load(&settings(), Some("6"), 32);
    assert_eq!(
        plan,
        ThreadPlan { num_threads: Some(6), decode_max_workers: 4, prefill_chunk_size: 0 }
    );
    assert_eq!(backend.kv_quant, KvQuantType::INT8);
    assert_eq!((backend.kv_reserve_tokens, backend.kv_budget), (Some(5), Some(100)));
    assert!(backend.show_progress);
    let mut fixed = settings();
    fixed.decode_threads = Some(0);
    fixed.prefill_chunk_size = Some(256);
    let plan = backend.load(&fixed, None, 32);
    assert_eq!(
        plan,
        ThreadPlan { num_threads: None, decode_max_workers: 0, prefill_chunk_size: 256 }
    );
}

#[test]
fn only_a_loaded_backend_answers() {
    let mut backend: GenericCpuBackend<u8, ()> = GenericCpuBackend::new();
    assert_eq!(backend.loaded_model(), Err(BackendStateError::ModelNotLoaded));
    assert_eq!(backend.loaded_config().err(), Some(BackendStateError::ConfigNotLoaded));
    assert_eq!(
        ConcurrentBackend::from_loaded_backend(GenericCpuBackend::<u8, ()>::new()).err(),
        Some(BackendStateError::ModelNotLoaded)
    );
    backend.model = Some(7);
    let mut half: GenericCpuBackend<u8, ()> = GenericCpuBackend::new();
    half.model = Some(7);
    assert_eq!(
        ConcurrentBackend::from_loaded_backend(half).err(),
        Some(BackendStateError::ConfigNotLoaded)
    );
    backend.config = Some(config());
    assert_eq!(backend.loaded_model(), Ok(&7));
    assert!(backend.loaded_config().is_ok());
    match ConcurrentBackend::from_loaded_backend(backend) {
        Ok(shared) => assert_eq!((shared.model, shared.config().num_layers), (7, 8)),
        Err(e) => panic!("{:?}", e),
    }
}

#[test]
fn caches_have_room_for_what_is_decoded() {
    assert_eq!(reserve_for(Some(5), Some(9), 10), Some(15));
    assert_eq!(reserve_for(None, Some(9), 10), Some(19));
    assert_eq!(reserve_for(None, None, 10), None);
    assert_eq!(reserve_for(Some(usize::MAX), None, 10), Some(usize::MAX));
}

#[test]
fn prompts_meet_what_is_cached() {
    let miss = plan_prefill(false, 0, 10, 0, Some(4), true);
    assert_eq!((miss.run, miss.save_system, miss.save_prompt), (PrefillRun::Whole, Some(4), true));
    let chunked = plan_prefill(false, 0, 10, 3, Some(10), true);
    assert_eq!(chunked.run, PrefillRun::Chunked { chunk_size: 3 });
    assert_eq!(chunked.save_system, None);
    assert_eq!(plan_prefill(true, 0, 10, 3, None, false).run, PrefillRun::Whole);
    assert!(!plan_prefill(true, 0, 10, 3, Some(4), false).save_prompt);
    let partial = plan_prefill(true, 6, 10, 3, Some(4), true);
    assert_eq!((partial.run, partial.start()), (PrefillRun::From { start: 6 }, 6));
    assert_eq!((partial.save_system, partial.save_prompt), (None, false));
    let exact = plan_prefill(false, 10, 10, 3, None, true);
    assert_eq!((exact.run, exact.start()), (PrefillRun::LastAgain { trim_to: 9 }, 9));
}

fn filled_cache(positions: usize) -> CpuKvCache<f32> {
    let mut cache = CpuKvCache::new_with_quant(&config(), None, KvQuantType::F32, 1, 0.0);
    let rows: Vec<f32> = (0..positions * 2).map(|i| i as f32).collect();
    for layer in 0..8 {
        cache.append(layer, &KvRows::F32 { keys: &rows, values: &rows });
    }
    cache.advance_seq_len(positions);
    cache
}

#[test]
fn a_fully_cached_prompt_drops_its_last_position() {
    let mut cache = filled_cache(4);
    ready_cache(&plan_prefill(true, 4, 4, 0, None, false), &mut cache.kv);
    assert_eq!((cache.kv.seq_len, cache.kv.text_pos), (3, 3));
    assert!((0..8).all(|layer| cache.cached_len(layer) == 3));
    ready_cache(&plan_prefill(true, 3, 9, 0, None, false), &mut cache.kv);
    assert_eq!((cache.kv.seq_len, cache.kv.text_pos), (3, 3));
    ready_cache(&plan_prefill(false, 0, 9, 0, None, false), &mut cache.kv);
    assert_eq!(cache.kv.seq_len, 3);
}

#[test]
fn text_follows_the_prompt() {
    for hit_len in 0..=4 {
        let mut cache = filled_cache(hit_len);
        let plan = plan_prefill(true, hit_len, 4, 0, None, false);
        ready_cache(&plan, &mut cache.kv);
        count_text(&mut cache.kv, true, 4 - plan.start());
        assert_eq!(cache.kv.text_pos, 4);
        count_text(&mut cache.kv, false, 9);
        assert_eq!(cache.kv.text_pos, 4);
    }
}

#[test]
fn the_cache_is_cut_back() {
    let mut cache = filled_cache(6);
    cache.kv.text_pos = 2;
    truncate_kv(&mut cache.kv, 9);
    assert_eq!((cache.kv.seq_len, cache.kv.text_pos), (6, 2));
    truncate_kv(&mut cache.kv, 5);
    assert_eq!((cache.kv.seq_len, cache.kv.text_pos, cache.cached_len(7)), (5, 1, 5));
    truncate_kv(&mut cache.kv, 1);
    assert_eq!((cache.kv.seq_len, cache.kv.text_pos, cache.cached_len(0)), (1, 0, 1));
    assert_eq!(text_positions(5, 3), vec![5, 6, 7]);
}

#[test]
fn eviction_waits_for_some_slack() {
    assert!(!should_evict(Some(80), 90));
    assert!(should_evict(Some(80), 91));
    assert!(!should_evict(None, usize::MAX));
    let kept = select_kept(&[0u32; 200], 136, 200).len();
    assert_eq!(kept, 136);
    assert!((0..=17).all(|steps| !should_evict(Some(136), kept + steps)));
    assert!(should_evict(Some(136), kept + 18));
}

#[test]
fn hidden_states_are_taken_once() {
    let mut cache = filled_cache(1);
    assert_eq!(
        take_eagle3_hidden_states(&mut cache.ctx),
        Err(BackendStateError::ExtractionInactive)
    );
    enable_eagle3_extraction(&mut cache.ctx, [2, 4, 5]);
    assert_eq!(cache.ctx.eagle3_extract_layers, [2, 4, 5]);
    cache.ctx.eagle3_hidden_states[1] = vec![3.0];
    assert_eq!(take_eagle3_hidden_states(&mut cache.ctx), Ok([vec![], vec![3.0], vec![]]));
    assert_eq!(take_eagle3_hidden_states(&mut cache.ctx), Ok([vec![], vec![], vec![]]));
}

#[test]
fn images_give_their_features_layer_by_layer() {
    let images = vec![
        VisionEmbedding { num_tokens: 2, deepstack_features: vec![vec![1.0f32, 2.0]] },
        VisionEmbedding { num_tokens: 1, deepstack_features: vec![vec![3.0], vec![4.0]] },
    ];
    let plan = match prefill_vl(10, images, &[(1, 3), (5, 6)], true) {
        Ok(plan) => plan,
        Err(e) => panic!("{:?}", e),
    };
    assert_eq!(plan.text_pos, 7);
    match plan.deepstack {
        Some(info) => {
            assert_eq!(info.image_token_indices, vec![1, 2, 5]);
            assert_eq!(info.layer_features, vec![vec![1.0, 2.0, 3.0], vec![4.0]]);
        }
        None => panic!("there are features"),
    }
    let none: Vec<VisionEmbedding<f32>> = vec![];
    assert_eq!(
        prefill_vl(10, none, &[(1, 3)], true).err(),
        Some(BackendStateError::ImagesMismatch { images: 0, positions: 1 })
    );
    let plain = vec![VisionEmbedding::<f32> { num_tokens: 4, deepstack_features: vec![] }];
    match prefill_vl(10, plain, &[(0, 4)], true) {
        Ok(plan) => assert!(plan.deepstack.is_none() && plan.text_pos == 6),
        Err(e) => panic!("{:?}", e),
    }
    assert_eq!(text_token_count(10, &[3, 4]), 3);
    assert_eq!(image_token_indices(&[(3, 3), (4, 2), (7, 9)]), vec![7, 8]);
    assert_eq!(combine_deepstack::<u8>(&[]), Vec::<Vec<u8>>::new());
}

fn tensor_file(skip: Option<usize>, narrow: Option<usize>, with_mask: bool) -> Vec<u8> {
    let lens = [12usize, 2, 2, 16, 8, 8, 8, 2, 6, 6, 6, 2, 6];
    let datas: Vec<Vec<u8>> = lens
        .iter()
        .enumerate()
        .map(|(i, &len)| (0..len).flat_map(|j| [j as u8, i as u8]).collect())
        .collect();
    let mask = vec![0u8, 1, 0, 1, 1, 0];
    let mut tensors: Vec<(String, TensorView)> = Vec::new();
    for i in 0..NUM_WEIGHTS {
        if skip == Some(i) {
            continue;
        }
        let dtype = if narrow == Some(i) { Dtype::F16 } else { Dtype::BF16 };
        match TensorView::new(dtype, vec![lens[i]], &datas[i]) {
            Ok(view) => tensors.push((name_of_weight(i).to_string(), view)),
            Err(e) => panic!("{:?}", e),
        }
    }
    if with_mask {
        match TensorView::new(Dtype::BOOL, vec![mask.len()], &mask) {
            Ok(view) => tensors.push(("t2d".to_string(), view)),
            Err(e) => panic!("{:?}", e),
        }
    }
    match serialize(tensors, &None) {
        Ok(bytes) => bytes,
        Err(e) => panic!("{:?}", e),
    }
}

fn head() -> Eagle3Head<f32> {
    match Eagle3Head::load(&tensor_file(None, None, true), &config(), "{\"mrope_interleaved\":true}") {
        Ok(head) => head,
        Err(e) => panic!("{:?}", e),
    }
}

#[test]
fn a_head_is_loaded_from_its_tensors() {
    let head = head();
    assert_eq!(head.hidden_norm, vec![0x0100, 0x0101]);
    assert_eq!(head.lm_head.len(), 6);
    assert_eq!(head.lm_head[5], 0x0c05);
    assert_eq!((head.num_heads, head.num_kv_heads, head.intermediate_size), (2, 1, 3));
    assert_eq!(head.extract_layers, [2, 4, 5]);
    assert!(head.mrope_interleaved);
    assert_eq!((head.draft_vocab_size(), head.target_vocab_size()), (3, 6));
    assert_eq!(head.d2t(), &[1, 3, 4]);
    assert_eq!(head.t2d(), &[-1, 0, -1, 1, 2, -1]);
    assert_eq!(head.kv_seq_len, 0);
}

#[test]
fn a_head_is_refused_with_its_fault() {
    let load = |bytes: &[u8]| Eagle3Head::<f32>::load(bytes, &config(), "").err();
    assert_eq!(load(&[1, 2, 3]), Some(Eagle3LoadError::Unreadable));
    assert_eq!(
        load(&tensor_file(Some(4), Some(6), false)),
        Some(Eagle3LoadError::MissingWeight(4))
    );
    assert_eq!(load(&tensor_file(None, Some(6), true)), Some(Eagle3LoadError::NotBf16(6)));
    assert_eq!(load(&tensor_file(None, None, false)), Some(Eagle3LoadError::MissingMask));
    match read_weights(&tensor_file(None, None, true)) {
        Ok((weights, mask)) => assert_eq!((weights.len(), mask), (13, vec![0, 1, 0, 1, 1, 0])),
        Err(e) => panic!("{:?}", e),
    }
    assert_eq!(decode_bf16(&[1, 2, 3, 4, 5]), vec![0x0201, 0x0403]);
}

fn file_with_header(header: &str, data: &[u8]) -> Vec<u8> {
    let mut bytes = (header.len() as u64).to_le_bytes().to_vec();
    bytes.extend_from_slice(header.as_bytes());
    bytes.extend_from_slice(data);
    bytes
}

fn tensor_entry(shape: &str, offsets: &str, more: &str) -> String {
    format!("{{\"dtype\":\"U8\",\"shape\":{shape},{offsets}{more}}}")
}

#[test]
fn tensors_that_end_too_far_out_are_unreadable() {
    let most = u64::MAX.to_string();
    let fault = |header: &str| read_weights(&file_with_header(header, &[1, 2])).err();
    let unreadable = Some(Eagle3LoadError::Unreadable);
    for offsets in [
        format!("\"data_offsets\":[0,{most}]"),
        format!("\"d\\u0061ta\\u005Foffset\\u0073\" : [ 0 , {most} ]"),
    ] {
        let entry = tensor_entry(&format!("[{most}]"), &offsets, "");
        assert_eq!(fault(&format!("{{\"a\":{entry}}}")), unreadable);
    }
    let listed = format!("{{\"a\":[\"U8\",[{most}],[0,{most}]]}}");
    assert_eq!(fault(&listed), unreadable);
    let long = "7".repeat(200);
    assert_eq!(fault(&format!("{{\"a\":{long}}}")), unreadable);
}

#[test]
fn other_large_numbers_are_no_fault() {
    let most = u64::MAX.to_string();
    let fault = |header: &str| read_weights(&file_with_header(header, &[1, 2])).err();
    let read = Some(Eagle3LoadError::MissingWeight(0));
    let good = tensor_entry("[2]", "\"data_offsets\":[0,2]", "");
    assert_eq!(fault(&format!("{{\"a\":{good}}}")), read);
    // A dimension beside a zero dimension.
    let empty = tensor_entry(&format!("[0,{most}]"), "\"data_offsets\":[0,0]", "");
    assert_eq!(fault(&format!("{{\"e\":{empty},\"a\":{good}}}")), read);
    let listed = format!("{{\"e\":[\"U8\",[0,{most}],[0,0]],\"a\":{good}}}");
    assert_eq!(fault(&listed), read);
    // Fields that are not read, one of them with a list of offsets in it.
    let more = format!(",\"x\":[0,{most}],\"y\":{{\"data_offsets\":[0,{most}]}}");
    let noted = tensor_entry("[2]", "\"data_offsets\":[0,2]", &more);
    assert_eq!(fault(&format!("{{\"a\":{noted}}}")), read);
    // A name that looks like a number, behind an escaped quote.
    let long = "7".repeat(200);
    assert_eq!(fault(&format!("{{\"\\\"{long}\":{good}}}")), read);
    // A tensor that another one of the same name replaces.
    let far = tensor_entry(&format!("[{most}]"), &format!("\"data_offsets\":[0,{most}]"), "");
    assert_eq!(fault(&format!("{{\"a\":{far},\"a\":{good}}}")), read);
}

#[test]
fn token_maps_undo_each_other() {
    let (d2t, t2d) = token_maps(&[1, 0, 0, 7, 1]);
    assert_eq!((d2t.clone(), t2d.clone()), (vec![0, 3, 4], vec![0, -1, -1, 1, 2]));
    for (d, &t) in d2t.iter().enumerate() {
        assert_eq!(t2d[t as usize], d as i32);
    }
    let head = head();
    assert_eq!(head.target_to_draft(4), Some(2));
    assert_eq!(head.target_to_draft(5), None);
    assert_eq!(head.target_to_draft(99), None);
    assert_eq!(head.draft_to_target(2), 4);
}

#[test]
fn configuration_texts_are_searched() {
    assert!(is_interleaved("{\"mrope_interleaved\": true}"));
    assert!(!is_interleaved("{\"mrope_interleaved\": false}"));
    assert_eq!(rope_theta_text("{\"rope_theta\": 5000000.0, \"x\": 1}"), Some("5000000.0"));
    assert_eq!(rope_theta_text("{\n \"rope_theta\" :\n 1e6 \n}"), Some("1e6"));
    assert_eq!(rope_theta_text("{\"rope_theta\"}"), None);
    assert_eq!(rope_theta_text("{\"theta\": 1}"), None);
    assert_eq!(rope_theta_text("\"rope_theta\":7"), Some("7"));
}

#[test]
fn sizes_follow_the_weights() {
    assert_eq!(
        infer_sizes(4096 * 4096, 512 * 4096, 6144 * 2048, 2048, 128),
        HeadSizes { num_heads: 32, num_kv_heads: 4, intermediate_size: 6144 }
    );
    assert_eq!(extract_layers(48), [2, 24, 45]);
    assert!(divides_logits(4096, 128) && !divides_logits(4096, 127));
}

#[test]
fn the_first_greatest_draft_is_chosen() {
    let logits: Vec<u32> = [0.5f32, 2.0, 2.0].iter().map(|v| v.to_bits()).collect();
    assert_eq!(choose_draft(&logits), 1);
    assert_eq!(head().choose_target(&logits), 3);
    let none: Vec<u32> = [f32::NAN, f32::NEG_INFINITY].iter().map(|v| v.to_bits()).collect();
    assert_eq!(choose_draft(&none), 0);
    assert_eq!(choose_draft(&[]), 0);
}

#[test]
fn draft_steps_need_an_input() {
    let head = head();
    assert_eq!(head.draft_step(1, false, false, 12, 3, 8192), Err(DraftError::NoInput));
    assert_eq!(
        head.draft_step(4, true, true, 12, 3, 8192),
        Ok(DraftPlan { source: DraftSource::HiddenStates, embed_start: 8, rope_start: 3 })
    );
    assert_eq!(
        head.draft_step(4, false, true, 12, 3, 8192).map(|plan| plan.source),
        Ok(DraftSource::Previous)
    );
    assert_eq!((head.kv_head_of(0), head.kv_head_of(1)), (0, 0));
}

#[test]
fn drafted_keys_are_kept_and_cut() {
    let mut head = head();
    head.append_kv(&[1.0, 2.0], &[3.0, 4.0]);
    head.append_kv(&[5.0, 6.0], &[7.0, 8.0]);
    assert_eq!(head.kv_keys, vec![vec![1.0, 2.0, 5.0, 6.0]]);
    head.truncate_kv(5);
    assert_eq!(head.kv_seq_len, 2);
    head.truncate_kv(1);
    assert_eq!((head.kv_seq_len, head.kv_values.clone()), (1, vec![vec![3.0, 4.0]]));
    head.reset_kv();
    assert_eq!((head.kv_seq_len, head.kv_keys.clone()), (0, vec![vec![]]));
}

#[test]
fn draft_probabilities_are_spread_over_the_target() {
    let head = head();
    assert_eq!(
        head.spread_over_target(&[0.2, 0.3, 0.5], 6, 0.0),
        vec![0.0, 0.2, 0.0, 0.3, 0.5, 0.0]
    );
    assert_eq!(head.spread_over_target(&[0.2, 0.3, 0.5], 4, 0.0), vec![0.0, 0.2, 0.0, 0.3]);
}

#[test]
fn random_numbers_never_stop() {
    let mut decoder = Eagle3SpecDecoder::new(3, 0);
    assert_eq!(decoder.rng_state, 0xdead_beef);
    let mut x = 0xdead_beefu64;
    for _ in 0..1000 {
        x ^= x << 13;
        x ^= x >> 7;
        x ^= x << 17;
        assert_eq!(decoder.next_bits() as u64, x >> 40);
        assert_eq!(decoder.rng_state, x);
        assert_ne!(x, 0);
    }
    assert_eq!(Eagle3SpecDecoder::new(3, 5).rng_state, 5);
}

#[test]
fn a_round_stops_at_the_first_failure() {
    let mut decoder = Eagle3SpecDecoder::new(2, 1);
    let mut round = decoder.begin(7, 10);
    assert_eq!(
        round.next_draft(),
        Some(DraftRequest { token: 7, first: true, rope_offset: 11 })
    );
    round.drafted(20);
    assert_eq!(
        round.next_draft(),
        Some(DraftRequest { token: 20, first: false, rope_offset: 12 })
    );
    round.drafted(21);
    assert_eq!(round.next_draft(), None);
    assert_eq!(
        round.check_positions(1),
        Err(SpecError::TooFewPositions { got: 1, expected: 2 })
    );
    assert_eq!(round.check_positions(2), Ok(()));
    assert_eq!(
        round.next_judgement(),
        Some(Judgement { index: 0, draft_token: 20, checked_row: None })
    );
    round.accept();
    assert_eq!(
        round.next_judgement(),
        Some(Judgement { index: 1, draft_token: 21, checked_row: Some(0) })
    );
    assert_eq!(round.bonus_row(), None);
    round.close(33);
    assert_eq!(round.next_judgement(), None);
    assert_eq!((round.target_keep(), round.eagle_keep()), (12, 1));
    let stats = decoder.finish(round);
    assert_eq!((stats.accepted, stats.produced), (1, 2));
    assert_eq!((stats.draft_tokens, stats.final_tokens), (vec![20, 21], vec![20, 33]));
    assert_eq!(
        (decoder.total_accepted, decoder.total_steps, decoder.total_produced),
        (1, 1, 2)
    );
}

#[test]
fn a_round_that_passes_adds_one_more() {
    let mut decoder = Eagle3SpecDecoder::new(2, 1);
    let mut round = decoder.begin(7, 10);
    round.drafted(20);
    round.drafted(21);
    round.accept();
    round.accept();
    assert_eq!((round.next_judgement(), round.bonus_row()), (None, Some(1)));
    round.close(40);
    assert_eq!(round.bonus_row(), None);
    assert_eq!(round.target_keep(), 13);
    assert_eq!(decoder.finish(round).final_tokens, vec![20, 21, 40]);
}
