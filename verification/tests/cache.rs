//! The key and value cache, and eviction from it.

use herbert_backend::config::Config;
use herbert_backend::h2o::{compact, h2o_evict, hysteresis, probe_layers, select_kept};
use herbert_backend::kv_cache::{
    int4_num_groups, pack_i4_group, unpack_i4_group, CpuKvCache, KvLayerData, KvQuantType, KvRows,
    KvStore,
};

fn config(layers: usize) -> Config {
    Config {
        num_layers: layers,
        hidden_size: 4,
        intermediate_size: 8,
        moe_intermediate_size: Some(3),
        is_moe: false,
        vocab_size: 10,
        num_attention_heads: 4,
        num_key_value_heads: 2,
        head_dim: 2,
        q_dim: 8,
        kv_dim: 4,
        conv_l_cache: 3,
        deltanet_layers: vec![false, true],
        deltanet_recurrent_size: 5,
        deltanet_conv_dim: 6,
        linear_conv_kernel_dim: None,
        max_position_embeddings: 100,
        rotary_ndims: 2,
    }
}

fn cache(quant: KvQuantType) -> CpuKvCache<f32> {
    CpuKvCache::new_with_quant(&config(2), Some(16), quant, 3, 0.0)
}

fn f32_heads(store: &KvStore<f32>, layer: usize) -> Vec<Vec<f32>> {
    match &store.layer_data[layer] {
        KvLayerData::F32 { keys_per_head, .. } => {
            keys_per_head.iter().map(|h| h.as_slice().to_vec()).collect()
        }
        _ => panic!("the layer has another format"),
    }
}

#[test]
fn a_new_cache_is_empty_and_its_states_are_zero() {
    let cache = CpuKvCache::new(&config(2), None, 3, 0.0f32);
    assert_eq!(cache.kv.kv_quant, KvQuantType::BF16);
    assert_eq!((cache.kv.seq_len, cache.kv.text_pos, cache.kv.bidirectional), (0, 0, false));
    assert_eq!(cache.kv.conv_cache, vec![vec![0.0; 12]; 2]);
    assert_eq!(cache.kv.deltanet_recurrent, vec![vec![], vec![0.0; 5]]);
    assert_eq!(cache.kv.deltanet_conv, vec![vec![], vec![0.0; 24]]);
    assert_eq!(cache.cached_len(0), 0);
    assert_eq!(cache.ctx.decode_q, vec![vec![0.0; 8]; 2]);
    assert!(!cache.ctx.eagle3_active);
}

fn head_room(store: &KvStore<f32>, layer: usize) -> Vec<usize> {
    match &store.layer_data[layer] {
        KvLayerData::F32 { keys_per_head: k, values_per_head: v } => {
            k.iter().chain(v).map(|h| h.capacity()).collect()
        }
        KvLayerData::BF16 { keys_per_head: k, values_per_head: v } => {
            k.iter().chain(v).map(|h| h.capacity()).collect()
        }
        KvLayerData::INT8 { keys_per_head: k, values_per_head: v, .. } => {
            k.iter().chain(v).map(|h| h.capacity()).collect()
        }
        KvLayerData::INT4 { keys_per_head: k, values_per_head: v, .. } => {
            k.iter().chain(v).map(|h| h.capacity()).collect()
        }
    }
}

#[test]
fn room_is_reserved_for_every_head() {
    for quant in [KvQuantType::F32, KvQuantType::BF16, KvQuantType::INT8] {
        assert_eq!(head_room(&cache(quant).kv, 1), vec![32; 4]);
    }
    assert_eq!(head_room(&cache(KvQuantType::INT4).kv, 0), vec![16; 4]);
    let none = CpuKvCache::new(&config(2), None, 3, 0.0f32);
    assert_eq!(head_room(&none.kv, 0), vec![0; 4]);
}

#[test]
fn config_answers_follow_the_model() {
    let mut c = config(2);
    assert!(!c.is_deltanet_layer(0) && c.is_deltanet_layer(1) && !c.is_deltanet_layer(9));
    assert_eq!(c.ffn_size(), 8);
    c.is_moe = true;
    assert_eq!(c.ffn_size(), 3);
    assert_eq!(c.deltanet_conv_len(), 24);
    c.linear_conv_kernel_dim = Some(2);
    assert_eq!(c.deltanet_conv_len(), 12);
}

#[test]
fn rows_are_split_by_head() {
    let mut cache = cache(KvQuantType::F32);
    let keys = [1.0f32, 2.0, 3.0, 4.0, 5.0, 6.0, 7.0, 8.0];
    let values = [0.5f32; 8];
    cache.append(0, &KvRows::F32 { keys: &keys, values: &values });
    assert_eq!(f32_heads(&cache.kv, 0), vec![vec![1.0, 2.0, 5.0, 6.0], vec![3.0, 4.0, 7.0, 8.0]]);
    assert_eq!((cache.cached_len(0), cache.cached_len(1)), (2, 0));
    cache.advance_seq_len(2);
    assert_eq!(cache.kv.seq_len, 2);
}

#[test]
fn cutting_undoes_appending() {
    let mut cache = cache(KvQuantType::F32);
    let first = [1.0f32, 2.0, 3.0, 4.0];
    let more = [5.0f32, 6.0, 7.0, 8.0, 9.0, 10.0, 11.0, 12.0];
    cache.append(1, &KvRows::F32 { keys: &first, values: &first });
    let before = f32_heads(&cache.kv, 1);
    cache.append(1, &KvRows::F32 { keys: &more, values: &more });
    assert_eq!(cache.cached_len(1), 3);
    cache.truncate_to(1, 2);
    assert_eq!(f32_heads(&cache.kv, 1)[0], vec![1.0, 2.0, 5.0, 6.0]);
    cache.truncate_to(1, 1);
    assert_eq!(f32_heads(&cache.kv, 1), before);
    cache.truncate_to(1, 5);
    assert_eq!(cache.cached_len(1), 1);
}

#[test]
fn sixteen_bit_rows_are_kept_flat_too() {
    let mut cache = cache(KvQuantType::BF16);
    let rows = [1u16, 2, 3, 4, 5, 6, 7, 8];
    cache.append(0, &KvRows::BF16 { keys: &rows, values: &rows });
    assert_eq!(cache.kv.keys[0], rows.to_vec());
    match &cache.kv.layer_data[0] {
        KvLayerData::BF16 { values_per_head, .. } => {
            assert_eq!(values_per_head[1].as_slice(), &[3, 4, 7, 8]);
        }
        _ => panic!("the layer has another format"),
    }
    cache.truncate_to(0, 1);
    assert_eq!(cache.kv.values[0], vec![1, 2, 3, 4]);
    assert_eq!(cache.cached_len(0), 1);
}

#[test]
fn eight_bit_rows_have_a_scale_for_each_head() {
    let mut cache = cache(KvQuantType::INT8);
    let codes = [1i8, -2, 3, -4];
    let scales = [0.5f32, 0.25];
    cache.append(
        0,
        &KvRows::INT8 { keys: &codes, values: &codes, key_scales: &scales, value_scales: &scales },
    );
    match &cache.kv.layer_data[0] {
        KvLayerData::INT8 { keys_per_head, values_scales, .. } => {
            assert_eq!(keys_per_head[1].as_slice(), &[3, -4]);
            assert_eq!(values_scales[1], vec![0.25]);
        }
        _ => panic!("the layer has another format"),
    }
    assert_eq!(cache.cached_len(0), 1);
}

#[test]
fn four_bit_rows_are_packed_in_groups() {
    let mut c = config(1);
    c.num_key_value_heads = 1;
    c.head_dim = 32;
    c.kv_dim = 32;
    let mut cache = CpuKvCache::new_with_quant(&c, None, KvQuantType::INT4, 1, 0.0f32);
    let codes: Vec<u8> = (0..32).map(|i| (i % 16) as u8).collect();
    let scale = [2.0f32];
    cache.append(
        0,
        &KvRows::INT4 { keys: &codes, values: &codes, key_scales: &scale, value_scales: &scale },
    );
    assert_eq!(cache.cached_len(0), 1);
    match &cache.kv.layer_data[0] {
        KvLayerData::INT4 { keys_per_head, keys_scales, .. } => {
            assert_eq!(keys_per_head[0].len(), 16);
            assert_eq!(keys_per_head[0].get(3), 0x33);
            assert_eq!(keys_scales[0], vec![2.0]);
        }
        _ => panic!("the layer has another format"),
    }
    assert_eq!(int4_num_groups(96), 3);
}

#[test]
fn unpacking_undoes_packing() {
    let codes: Vec<u8> = (0..32).map(|i| (i * 7 % 16) as u8).collect();
    let mut packed = vec![0u8; 16];
    pack_i4_group(&codes, &mut packed);
    assert_eq!(packed[1], codes[1] + 16 * codes[17]);
    let mut back = vec![0i8; 32];
    unpack_i4_group(&packed, &mut back);
    for i in 0..32 {
        assert_eq!(back[i], codes[i] as i8 - 8);
    }
}

#[test]
fn snapshots_come_back() {
    let mut cache = cache(KvQuantType::F32);
    let rows = [1.0f32, 2.0, 3.0, 4.0];
    cache.append(0, &KvRows::F32 { keys: &rows, values: &rows });
    cache.advance_seq_len(1);
    cache.kv.text_pos = 9;
    let snapshot = cache.kv.snapshot();
    assert_eq!(snapshot.memory_bytes(), 32);
    assert_eq!(cache.kv.memory_bytes(), 32);
    let copy = snapshot.clone();
    let back = KvStore::restore_from_snapshot(&copy, &config(2), 0.0);
    assert_eq!(f32_heads(&back, 0), f32_heads(&cache.kv, 0));
    assert_eq!((back.seq_len, back.text_pos), (1, 0));
    assert_eq!(back.conv_cache, vec![vec![0.0; 12]; 2]);
}

#[test]
fn first_and_recent_positions_stay() {
    let scores: Vec<u32> = (0..200).map(|i| ((i * 37 % 101) as f32).to_bits()).collect();
    let kept = select_kept(&scores, 150, 200);
    assert_eq!(kept.len(), 150);
    assert!(kept.windows(2).all(|pair| pair[0] < pair[1]));
    for p in (0..8u32).chain(72..200) {
        assert!(kept.contains(&p));
    }
    let lowest_kept = kept
        .iter()
        .filter(|&&p| (8..72).contains(&p))
        .map(|&p| p as usize * 37 % 101)
        .min();
    let highest_left = (8..72u32)
        .filter(|p| !kept.contains(p))
        .map(|p| p as usize * 37 % 101)
        .max();
    assert!(highest_left <= lowest_kept);
}

#[test]
fn a_short_cache_keeps_everything() {
    let scores = vec![0u32; 20];
    let kept = select_kept(&scores, 4, 20);
    assert_eq!(kept, (0..20).collect::<Vec<u32>>());
}

#[test]
fn compacting_moves_kept_rows_together() {
    let mut cache = cache(KvQuantType::F32);
    let rows: Vec<f32> = (0..16).map(|i| i as f32).collect();
    for layer in 0..2 {
        cache.append(layer, &KvRows::F32 { keys: &rows, values: &rows });
    }
    let before = f32_heads(&cache.kv, 0);
    compact(&mut cache.kv, &[0, 1, 2, 3], 2);
    assert_eq!(f32_heads(&cache.kv, 0), before);
    compact(&mut cache.kv, &[0, 3], 2);
    assert_eq!(f32_heads(&cache.kv, 0), vec![vec![0.0, 1.0, 12.0, 13.0], vec![2.0, 3.0, 14.0, 15.0]]);
    assert_eq!(cache.cached_len(1), 2);
}

#[test]
fn eviction_meets_the_budget() {
    let mut cache = cache(KvQuantType::F32);
    let rows: Vec<f32> = (0..800).map(|i| i as f32).collect();
    for layer in 0..2 {
        cache.append(layer, &KvRows::F32 { keys: &rows, values: &rows });
    }
    cache.advance_seq_len(200);
    let scores: Vec<u32> = (0..200).map(|i| (i as f32).to_bits()).collect();
    assert_eq!(h2o_evict(&mut cache.kv, 2, &scores, 200), 0);
    assert_eq!(h2o_evict(&mut cache.kv, 2, &scores, 150), 50);
    assert_eq!((cache.kv.seq_len, cache.cached_len(0)), (150, 150));
    // The middle keeps its highest scores: positions 58 to 71.
    assert_eq!(f32_heads(&cache.kv, 0)[0][16], 58.0 * 4.0);
    assert_eq!(probe_layers(28), [20, 24, 27]);
    assert_eq!(probe_layers(2), [0, 0, 1]);
    assert_eq!((hysteresis(80), hysteresis(100000)), (10, 512));
}
