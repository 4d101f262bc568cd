//! The verified core of a CPU inference engine for large language models.

pub mod arith;
pub mod attention_common;
pub mod autotune;
pub mod backend_registry;
pub mod bf16_convert;
pub mod bf16_weight;
pub mod config;
pub mod cpu_backend;
pub mod eagle3;
pub mod eagle3_speculative;
pub mod execution_phase;
pub mod expert_pool;
pub mod float_order;
pub mod generic_attention;
pub mod generic_layer;
pub mod generic_mlp;
pub mod generic_model;
pub mod generic_moe;
pub mod h2o;
pub mod hugepages;
pub mod kernels;
pub mod kv_cache;
pub mod tensor_header;
pub mod text;
