//! The three layer classes and the rule that assigns a name to one of them.

use crate::text::{contains, has_infix};
use vstd::prelude::*;

verus! {

/// The class of a layer, which decides the prefix of its tensors' new names.
#[derive(Debug, Clone, Copy, PartialEq, Eq, Structural)]
pub enum CandleLoraPrefix {
    /// Embedding and output-head layers.
    Llama,
    /// The projections of a self-attention layer.
    LlamaCsa,
    /// Every other layer of a transformer block.
    LlamaBlock,
}

/// `name` marks an embedding or an output head.
pub open spec fn names_embedding_or_head(name: Seq<char>) -> bool {
    has_infix(name, "embed_tokens"@) || has_infix(name, "lm_head"@)
}

/// `name` marks one of the four projections of a self-attention layer.
pub open spec fn names_attention_projection(name: Seq<char>) -> bool {
    has_infix(name, "self_attn"@) && (has_infix(name, "q_proj"@) || has_infix(name, "k_proj"@)
        || has_infix(name, "v_proj"@) || has_infix(name, "o_proj"@))
}

/// The class of the layer called `name`: the first rule that matches decides,
/// and a name that matches none belongs to a block.
pub open spec fn classify(name: Seq<char>) -> CandleLoraPrefix {
    if names_embedding_or_head(name) {
        CandleLoraPrefix::Llama
    } else if names_attention_projection(name) {
        CandleLoraPrefix::LlamaCsa
    } else {
        CandleLoraPrefix::LlamaBlock
    }
}

impl CandleLoraPrefix {
    /// The prefix under which the tensors of this class are stored.
    pub open spec fn text(self) -> Seq<char> {
        match self {
            CandleLoraPrefix::Llama => "lora_llama"@,
            CandleLoraPrefix::LlamaCsa => "lora_llama_csa"@,
            CandleLoraPrefix::LlamaBlock => "lora_llama_block"@,
        }
    }

    /// The prefix under which the tensors of this class are stored.
    pub fn as_str(&self) -> (r: &'static str)
        ensures
            r@ == self.text(),
    {
        match self {
            CandleLoraPrefix::Llama => "lora_llama",
            CandleLoraPrefix::LlamaCsa => "lora_llama_csa",
            CandleLoraPrefix::LlamaBlock => "lora_llama_block",
        }
    }

    /// The class of the layer called `name`.
    pub fn from_peft_layer_name(name: &str) -> (r: Self)
        ensures
            r == classify(name@),
    {
        if contains(name, "embed_tokens") || contains(name, "lm_head") {
            CandleLoraPrefix::Llama
        } else if contains(name, "self_attn") && (contains(name, "q_proj") || contains(
            name,
            "k_proj",
        ) || contains(name, "v_proj") || contains(name, "o_proj")) {
            CandleLoraPrefix::LlamaCsa
        } else {
            CandleLoraPrefix::LlamaBlock
        }
    }
}

} // verus!
