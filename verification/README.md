# herbert_backend

The decisions of a CPU inference engine for language models, verified with Verus: which
backend to use, how a prompt is run and cached, how keys and values are laid out and
evicted, how tokens are routed to experts and experts to threads, and how drafts are
checked.

- `src/` is the library. Scalars are generic, or bit patterns that are ranked by
  `float_order`; no function of it computes with floating-point numbers.
- `app/` is the engine around it: kernels on `f32`, threads, files, the clock and the
  processor. It asks the library what to do next and reports back.
- `tests/` runs the library on concrete values.

| Module | What it decides |
| --- | --- |
| `backend_registry` | Backends by name, by consumer and by platform |
| `execution_phase`, `autotune` | How many workers run, and when work is divided |
| `kv_cache`, `h2o`, `hugepages` | Layout, appending, cutting and eviction of keys and values |
| `generic_model`, `cpu_backend` | Forward passes, prompts, chunks and decoding |
| `generic_layer`, `generic_attention`, `attention_common`, `generic_mlp` | Steps of a layer, units of work, states |
| `generic_moe`, `expert_pool` | Routing, grouping and scheduling of experts |
| `eagle3`, `tensor_header`, `eagle3_speculative` | Draft heads and their files, token maps, rounds of drafting |
| `bf16_convert`, `bf16_weight`, `float_order`, `kernels` | Sixteen-bit numbers, stored weights, ranking, checks before kernels |
| `config`, `arith`, `text` | Sizes of a model, bounded arithmetic, settings from text |
