//! Routing to experts, feed-forward blocks, and the bookkeeping of attention.

use herbert_backend::attention_common::{
    decode_head_parallel_workers, should_parallelize_decode_heads, value_order, ValueOrder,
};
use herbert_backend::expert_pool::ExpertPool;
use herbert_backend::generic_attention::{
    decode_heads, head_start, prefill_work_item, prepare_worker_scores, resize_scores, row_place,
    split_query_gate, unit_query_starts, AttentionShape, AttentionStep, BlendKernel, DecodeHeads,
    DotKernel, KernelChoice, PrefillKernel,
};
use herbert_backend::generic_mlp::{GenericMLP, MlpActivation, MlpStep};
use herbert_backend::generic_moe::{
    build_expert_assignments, divides_experts, flatten_assignments, gather_rows, moe_prefill,
    plan_dispatch, route_token, schedule_experts, sort_by_count, top_k_indices, ActiveExpert,
    GenericFFN, GenericMoE, MoePrefill,
};
use herbert_backend::kv_cache::KvQuantType;

fn bits(values: &[f32]) -> Vec<u32> {
    values.iter().map(|v| v.to_bits()).collect()
}

#[test]
fn best_experts_come_first() {
    let values = bits(&[0.1, 0.7, -0.5, 0.7, 0.2]);
    let mut out = [(9usize, 0u32); 8];
    assert_eq!(top_k_indices(&values, 3, &mut out), 3);
    let mut picked: Vec<usize> = out[..3].iter().map(|pick| pick.0).collect();
    assert_eq!(picked[2], 4);
    picked.sort();
    assert_eq!(picked, vec![1, 3, 4]);
    assert_eq!(out[0].1, 0.7f32.to_bits());
    assert_eq!(out[3], (9, 0));
    assert_eq!(top_k_indices(&values, 0, &mut out), 0);
    assert_eq!(top_k_indices(&values[..2], 8, &mut out), 2);
}

#[test]
fn bias_chooses_and_activation_weighs() {
    let scores = bits(&[0.1, 0.2, 0.3]);
    let biased = bits(&[0.9, 0.2, 0.3]);
    let mut out = [(0usize, 0u32); 8];
    assert_eq!(route_token(&scores, Some(&biased), 2, &mut out), 2);
    assert_eq!(out[0], (0, 0.1f32.to_bits()));
    assert_eq!(out[1], (2, 0.3f32.to_bits()));
    assert_eq!(route_token(&scores, None, 1, &mut out), 1);
    assert_eq!(out[0], (2, 0.3f32.to_bits()));
}

#[test]
fn every_pick_is_dispatched() {
    let routed = vec![vec![(2usize, 'a'), (0, 'b')], vec![], vec![(2, 'c')]];
    let lists = build_expert_assignments(&routed, 4);
    assert_eq!(lists, vec![vec![(0, 'b')], vec![], vec![(0, 'a'), (2, 'c')], vec![]]);
    let flat = flatten_assignments(&lists);
    assert_eq!(flat.token_indices, vec![0, 0, 2]);
    assert_eq!(flat.weights, vec!['b', 'a', 'c']);
    assert_eq!(
        flat.active,
        vec![
            ActiveExpert { expert_id: 0, flat_offset: 0, count: 1, out_offset: 0 },
            ActiveExpert { expert_id: 2, flat_offset: 1, count: 2, out_offset: 1 },
        ]
    );
    let plan = plan_dispatch(&routed, 4, 8);
    assert_eq!(plan.flat.active[0].expert_id, 2);
    assert_eq!(plan.schedule.worker_ranges.len(), 2);
}

#[test]
fn long_jobs_go_to_the_least_loaded_worker() {
    let mut active: Vec<ActiveExpert> = [3usize, 9, 4, 4, 1]
        .iter()
        .enumerate()
        .map(|(i, &count)| ActiveExpert { expert_id: i, flat_offset: 0, count, out_offset: 0 })
        .collect();
    sort_by_count(&mut active);
    let counts: Vec<usize> = active.iter().map(|a| a.count).collect();
    assert_eq!(counts, vec![9, 4, 4, 3, 1]);
    let schedule = schedule_experts(&active, 2);
    let ranges = &schedule.worker_ranges;
    assert_eq!(schedule.assigns.len(), 5);
    let load = |w: usize| -> usize {
        (ranges[w].offset..ranges[w].offset + ranges[w].len)
            .map(|i| active[schedule.assigns[i]].count)
            .sum()
    };
    assert_eq!((load(0), load(1)), (10, 11));
    let mut jobs = schedule.assigns.clone();
    jobs.sort();
    assert_eq!(jobs, vec![0, 1, 2, 3, 4]);
}

#[test]
fn rows_are_gathered_in_order() {
    let x = [1, 2, 3, 4, 5, 6];
    assert_eq!(gather_rows(&x, 2, &[2, 0, 2]), vec![5, 6, 1, 2, 5, 6]);
    assert_eq!(gather_rows(&x, 0, &[1]), Vec::<i32>::new());
}

#[test]
fn busy_experts_move_to_the_front() {
    let mut pool = ExpertPool::new_all_loaded(vec!["a", "b", "c"], 7);
    assert_eq!((pool.num_experts(), pool.layer_id(), *pool.get(1)), (3, 7, "b"));
    let mut first = [(2usize, 'x')];
    pool.record_and_sort_by_frequency(&mut first, 1);
    let mut picks = [(0usize, 'p'), (2, 'q'), (9, 'r')];
    pool.record_and_sort_by_frequency(&mut picks, 2);
    assert_eq!(picks, [(2, 'q'), (0, 'p'), (9, 'r')]);
    assert_eq!(pool.experts(), vec![&"a", &"b", &"c"]);
    assert_eq!(pool.iter_loaded()[2], (2, &"c"));
    assert_eq!(pool.all_experts(), [Some("a"), Some("b"), Some("c")]);
}

fn mlp(activation: MlpActivation) -> GenericMLP<u8> {
    GenericMLP {
        gate_proj: 1,
        up_proj: 2,
        down_proj: 3,
        hidden_size: 4,
        intermediate_size: 6,
        activation,
    }
}

#[test]
fn gate_goes_before_the_projection_back() {
    let swiglu = mlp(MlpActivation::SwiGLU);
    assert_eq!(swiglu.forward_decode(None, false), MlpStep::TryFused);
    assert_eq!(swiglu.forward_decode(Some(MlpStep::TryFused), true), MlpStep::Down);
    assert_eq!(swiglu.forward_decode(Some(MlpStep::TryFused), false), MlpStep::GateUp);
    let gelu = mlp(MlpActivation::GeluTanh);
    let mut steps = vec![gelu.forward_decode(None, false)];
    while steps[steps.len() - 1] != MlpStep::Done {
        let last = steps[steps.len() - 1];
        steps.push(gelu.forward_decode(Some(last), false));
    }
    assert_eq!(steps, vec![MlpStep::GateUp, MlpStep::Activate, MlpStep::Down, MlpStep::Done]);
}

#[test]
fn feed_forward_parts_know_their_size() {
    let dense: GenericFFN<f32, u8, ()> = GenericFFN::Dense(mlp(MlpActivation::SwiGLU));
    assert!(!dense.is_moe());
    assert_eq!(dense.intermediate_size(), 6);
    let moe: GenericFFN<f32, u8, ()> = GenericFFN::MoE(GenericMoE {
        gate: 0,
        expert_pool: (),
        num_experts: 8,
        num_experts_per_tok: 2,
        hidden_size: 4,
        moe_intermediate_size: 3,
        norm_topk_prob: true,
        layer_id: 0,
        expert_bias: None,
        shared_expert: None,
        shared_expert_gate: None,
    });
    assert!(moe.is_moe());
    assert_eq!((moe.intermediate_size(), moe.as_moe().num_experts), (3, 8));
    assert!(divides_experts(true, 2) && !divides_experts(true, 1) && !divides_experts(false, 8));
}

#[test]
fn queries_and_gates_are_separated() {
    let mut fused: Vec<u32> = (0..24).collect();
    let gate = split_query_gate(&mut fused, 6, 2);
    assert_eq!(fused, vec![0, 1, 4, 5, 8, 9, 12, 13, 16, 17, 20, 21]);
    assert_eq!(gate, vec![2, 3, 6, 7, 10, 11, 14, 15, 18, 19, 22, 23]);
}

#[test]
fn work_covers_every_query_once() {
    let (seq_len, kv_heads) = (5, 3);
    let mut seen = vec![0; seq_len * kv_heads];
    for w in 0..seq_len * kv_heads {
        let item = prefill_work_item(w, seq_len, 10, 100, false);
        assert_eq!(item.valid_len, 10 + item.query + 1);
        seen[item.kv_head * seq_len + item.query] += 1;
    }
    assert!(seen.iter().all(|&count| count == 1));
    let order: Vec<usize> =
        (0..5).map(|w| prefill_work_item(w, 5, 0, 5, false).query).collect();
    assert_eq!(order, vec![0, 4, 1, 3, 2]);
    assert_eq!(prefill_work_item(0, 5, 0, 3, true).valid_len, 3);
    assert_eq!(prefill_work_item(1, 5, 0, 3, false).valid_len, 3);
}

#[test]
fn outputs_of_heads_do_not_overlap() {
    let mut starts = Vec::new();
    for query in 0..3 {
        for head in 0..2 {
            starts.push(head_start(query, head, 2, 4));
        }
    }
    assert_eq!(starts, vec![0, 4, 8, 12, 16, 20]);
}

#[test]
fn heads_are_divided_where_it_pays() {
    assert_eq!(decode_head_parallel_workers(16, 8), 8);
    assert_eq!(decode_head_parallel_workers(0, 8), 1);
    assert!(should_parallelize_decode_heads(8, 256, 2));
    assert!(!should_parallelize_decode_heads(7, 256, 2));
    assert!(!should_parallelize_decode_heads(8, 255, 2));
    assert!(!should_parallelize_decode_heads(8, 256, 1));
    assert_eq!(decode_heads(32, 300, 12), DecodeHeads::Divided(12));
    assert_eq!(decode_heads(32, 10, 12), DecodeHeads::InTurn);
    assert_eq!(value_order(64), ValueOrder::ColumnByColumn);
    assert_eq!(value_order(65), ValueOrder::RowByRow);
}

#[test]
fn score_buffers_have_their_size() {
    let mut buffers = vec![vec![1.0f32; 5], vec![2.0; 1]];
    prepare_worker_scores(&mut buffers, 3, 2, 0.0);
    assert_eq!(buffers, vec![vec![1.0, 1.0], vec![2.0, 0.0], vec![0.0, 0.0]]);
    let mut one = vec![3.0f32];
    resize_scores(&mut one, 3, 0.0);
    assert_eq!(one, vec![3.0, 0.0, 0.0]);
    resize_scores(&mut one, 1, 0.0);
    assert_eq!(one, vec![3.0]);
}

fn shape() -> AttentionShape {
    AttentionShape {
        has_output_gate: false,
        q_bias: false,
        k_bias: false,
        v_bias: false,
        o_bias: false,
        q_norm: true,
        k_norm: true,
        use_rope: true,
        use_q_bf16: false,
    }
}

#[test]
fn attention_takes_its_steps_in_order() {
    let plain = shape().forward_decode(true);
    assert_eq!(
        plain,
        vec![
            AttentionStep::Project,
            AttentionStep::NormQueries,
            AttentionStep::NormKeys,
            AttentionStep::Rotate,
            AttentionStep::Append,
            AttentionStep::Attend,
            AttentionStep::ProjectOut,
        ]
    );
    assert_eq!(shape().forward_prefill(true), plain);
    let mut gated = shape();
    gated.has_output_gate = true;
    gated.q_bias = true;
    gated.o_bias = true;
    gated.k_norm = false;
    gated.use_rope = false;
    gated.use_q_bf16 = true;
    assert_eq!(
        gated.forward_decode(true),
        vec![
            AttentionStep::Project,
            AttentionStep::SplitGate,
            AttentionStep::AddQueryBias,
            AttentionStep::NormQueries,
            AttentionStep::NarrowQueries,
            AttentionStep::Append,
            AttentionStep::Attend,
            AttentionStep::ApplyGate,
            AttentionStep::ProjectOut,
            AttentionStep::AddOutputBias,
        ]
    );
    assert!(!gated.forward_prefill(false).contains(&AttentionStep::NormQueries));
}

#[test]
fn two_phases_make_a_prefill() {
    let plain = shape();
    let mut phases = plain.forward_prefill_phase_a();
    phases.extend(plain.forward_prefill_phase_b(false));
    assert_eq!(phases, plain.forward_prefill(false));
    let mut narrow = shape();
    narrow.use_q_bf16 = true;
    let mut divided = narrow.forward_prefill_phase_a();
    let at = divided.len();
    divided.extend(narrow.forward_prefill_phase_b(true));
    divided.swap(at, at + 1);
    assert_eq!(divided, narrow.forward_prefill(true));
}

#[test]
fn experts_are_grouped_where_that_is_wanted() {
    assert_eq!(moe_prefill(false, true), MoePrefill::TokenByToken);
    assert_eq!(moe_prefill(true, false), MoePrefill::ExpertByExpert);
    assert_eq!(moe_prefill(true, true), MoePrefill::Divided);
}

#[test]
fn batching_keeps_tokens_apart() {
    let routed = vec![
        vec![(2usize, 0.5f32), (0, 0.25)],
        vec![(2, 1.0)],
        vec![(1, 0.75), (2, 0.125)],
    ];
    let x = [10, 11, 20, 21, 30, 31];
    let plan = plan_dispatch(&routed, 4, 2);
    let mut shares: Vec<Vec<(usize, f32, Vec<i32>)>> = vec![Vec::new(); 3];
    for job in &plan.flat.active {
        let places = job.flat_offset..job.flat_offset + job.count;
        let tokens = &plan.flat.token_indices[places.clone()];
        let batch = gather_rows(&x, 2, tokens);
        for (i, place) in places.enumerate() {
            let row = batch[2 * i..2 * i + 2].to_vec();
            shares[tokens[i]].push((job.expert_id, plan.flat.weights[place], row));
        }
    }
    for (t, picks) in routed.iter().enumerate() {
        let own: Vec<(usize, f32, Vec<i32>)> =
            picks.iter().map(|&(e, w)| (e, w, x[2 * t..2 * t + 2].to_vec())).collect();
        assert_eq!(shares[t].len(), own.len());
        assert!(own.iter().all(|share| shares[t].contains(share)));
    }
}

#[test]
fn kernels_fit_the_machine() {
    let none =
        KernelChoice { avx512f: false, avx512bf16: false, avx2_fma: false, two_pass: true };
    let scalar = PrefillKernel::Split { dot: DotKernel::Scalar, blend: BlendKernel::Scalar };
    for quant in [KvQuantType::F32, KvQuantType::BF16, KvQuantType::INT8, KvQuantType::INT4] {
        for heads in [1, 4, 8] {
            assert_eq!(none.prefill_kernel(quant, heads, true), scalar);
        }
    }
    let all = KernelChoice { avx512f: true, avx512bf16: true, avx2_fma: true, two_pass: true };
    assert_eq!(all.prefill_kernel_bf16(8, true), PrefillKernel::TwoPass { narrow: true });
    assert_eq!(all.prefill_kernel_int8(8), PrefillKernel::TwoPass { narrow: false });
    assert_eq!(all.prefill_kernel(KvQuantType::F32, 8, true), scalar);
    let fused = KernelChoice { two_pass: false, ..all };
    assert_eq!(fused.prefill_kernel_bf16(8, true), PrefillKernel::Fused { narrow: true });
    assert_eq!(fused.prefill_kernel_bf16(8, false), PrefillKernel::Fused { narrow: false });
    assert_eq!(
        fused.prefill_kernel_bf16(4, true),
        PrefillKernel::Split { dot: DotKernel::Narrow, blend: BlendKernel::Avx512 }
    );
    let small = KernelChoice { avx512f: false, avx512bf16: false, ..fused };
    assert_eq!(small.prefill_kernel_int8(8), scalar);
    assert_eq!(
        small.prefill_kernel_int8(2),
        PrefillKernel::Split { dot: DotKernel::Avx2, blend: BlendKernel::Avx2 }
    );
}

#[test]
fn rows_of_a_head_follow_each_other() {
    let place = row_place(KvQuantType::INT4, 3, 64);
    assert_eq!((place.start, place.len, place.scale_start, place.scales), (96, 32, 6, 2));
    let place = row_place(KvQuantType::INT8, 3, 64);
    assert_eq!((place.start, place.len, place.scale_start, place.scales), (192, 64, 3, 1));
    for quant in [KvQuantType::F32, KvQuantType::BF16, KvQuantType::INT8, KvQuantType::INT4] {
        let (a, b) = (row_place(quant, 4, 96), row_place(quant, 5, 96));
        assert_eq!(a.start + a.len, b.start);
        assert_eq!(a.scale_start + a.scales, b.scale_start);
    }
}

#[test]
fn every_output_is_written_once() {
    let (seq_len, num_heads, num_kv_heads, head_dim) = (3, 6, 2, 4);
    let mut written = vec![0; seq_len * num_heads * head_dim];
    for unit in 0..seq_len * num_kv_heads {
        let item = prefill_work_item(unit, seq_len, 0, seq_len, false);
        let starts = unit_query_starts(&item, num_heads, num_kv_heads, head_dim);
        assert_eq!(starts.len(), 3);
        for start in starts {
            for d in 0..head_dim {
                written[start + d] += 1;
            }
        }
    }
    assert!(written.iter().all(|&count| count == 1));
}
