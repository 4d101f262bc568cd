//! The facts about a model that the library's logic reads.

use vstd::prelude::*;

verus! {

/// A model's dimensions and structure.
pub struct Config {
    pub num_layers: usize,
    pub hidden_size: usize,
    pub intermediate_size: usize,
    /// The inner size of one expert, where the model has experts.
    pub moe_intermediate_size: Option<usize>,
    pub is_moe: bool,
    pub vocab_size: usize,
    pub num_attention_heads: usize,
    pub num_key_value_heads: usize,
    pub head_dim: usize,
    /// The width of all query heads together.
    pub q_dim: usize,
    /// The width of all key heads together.
    pub kv_dim: usize,
    /// How many past columns a convolution layer keeps; 0 where there is none.
    pub conv_l_cache: usize,
    /// Which layers are recurrent (DeltaNet) layers.
    pub deltanet_layers: Vec<bool>,
    pub deltanet_recurrent_size: usize,
    pub deltanet_conv_dim: usize,
    pub linear_conv_kernel_dim: Option<usize>,
    /// The longest sequence that the model takes.
    pub max_position_embeddings: usize,
    /// How many of a head's elements are rotated.
    pub rotary_ndims: usize,
}

impl Config {
    /// Whether layer `i` is a recurrent layer.
    pub open spec fn spec_is_deltanet_layer(&self, i: int) -> bool {
        0 <= i < self.deltanet_layers@.len() && self.deltanet_layers@[i]
    }

    /// Whether layer `i` is a recurrent layer.
    pub fn is_deltanet_layer(&self, i: usize) -> (b: bool)
        ensures
            b == self.spec_is_deltanet_layer(i as int),
    {
        i < self.deltanet_layers.len() && self.deltanet_layers[i]
    }

    /// The inner size of the feed-forward block: one expert's where the model has
    /// experts and says how large they are.
    pub open spec fn spec_ffn_size(&self) -> usize {
        if self.is_moe {
            match self.moe_intermediate_size {
                Some(n) => n,
                None => self.intermediate_size,
            }
        } else {
            self.intermediate_size
        }
    }

    /// The inner size of the feed-forward block.
    pub fn ffn_size(&self) -> (n: usize)
        ensures
            n == self.spec_ffn_size(),
    {
        if self.is_moe {
            match self.moe_intermediate_size {
                Some(n) => n,
                None => self.intermediate_size,
            }
        } else {
            self.intermediate_size
        }
    }

    /// The length of a recurrent layer's convolution state. A model that does not
    /// say how wide its kernel is has one of 4.
    pub open spec fn spec_deltanet_conv_len(&self) -> int {
        self.deltanet_conv_dim * (match self.linear_conv_kernel_dim {
            Some(n) => n as int,
            None => 4,
        })
    }

    /// The length of a recurrent layer's convolution state.
    pub fn deltanet_conv_len(&self) -> (n: usize)
        requires
            self.spec_deltanet_conv_len() <= usize::MAX,
        ensures
            n == self.spec_deltanet_conv_len(),
    {
        let kernel: usize = match self.linear_conv_kernel_dim {
            Some(n) => n,
            None => 4,
        };
        proof {
            assert(self.deltanet_conv_dim * kernel >= 0) by (nonlinear_arith);
        }
        self.deltanet_conv_dim * kernel
    }
}

/// The inner size of the feed-forward block is one expert's where the model has experts
/// whose size it gives, and else the block's own.
pub proof fn law_expert_size_is_used_with_experts(config: &Config)
    ensures
        config.is_moe && config.moe_intermediate_size is Some ==> config.spec_ffn_size()
            == config.moe_intermediate_size->0,
        !config.is_moe || config.moe_intermediate_size is None ==> config.spec_ffn_size()
            == config.intermediate_size,
{
}

/// A layer is recurrent only where the model says so of it; the convolution of such a
/// layer has a column for every tap, of which there are 4 unless the model says
/// otherwise.
pub proof fn law_recurrent_layers_are_listed(config: &Config, i: int)
    requires
        0 <= i,
    ensures
        i < config.deltanet_layers@.len() ==> config.spec_is_deltanet_layer(i)
            == config.deltanet_layers@[i],
        i >= config.deltanet_layers@.len() ==> !config.spec_is_deltanet_layer(i),
        config.linear_conv_kernel_dim matches Some(n) ==> config.spec_deltanet_conv_len() == n
            * config.deltanet_conv_dim,
        config.linear_conv_kernel_dim is None ==> config.spec_deltanet_conv_len() == 4
            * config.deltanet_conv_dim,
{
    if let Some(n) = config.linear_conv_kernel_dim {
        let d = config.deltanet_conv_dim;
        assert(d * n == n * d) by (nonlinear_arith);
    }
}

} // verus!
