//! Model configuration for the text engine.

use crate::number::Real64;
use crate::json;
use crate::json::{Json, Tree};
use crate::text::same;
use vstd::prelude::*;

verus! {

/// Text-model configuration.
#[derive(Debug)]
pub struct Qwen4ExpConfig {
    pub hidden_size: usize,
    pub num_hidden_layers: usize,
    pub layer_types: Vec<String>,
    pub num_attention_heads: usize,
    pub num_key_value_heads: usize,
    pub head_dim: usize,
    pub linear_num_key_heads: usize,
    pub linear_num_value_heads: usize,
    pub linear_key_head_dim: usize,
    pub linear_value_head_dim: usize,
    pub linear_conv_kernel_dim: usize,
    pub rms_norm_eps: Real64,
    pub vocab_size: usize,
    pub partial_rotary_factor: Real64,
    pub rope_parameters: RopeParams,
    pub hc_count: usize,
    pub hc_lowrank: usize,
    pub num_experts: usize,
    pub num_experts_per_tok: usize,
    pub moe_intermediate_size: usize,
    pub shared_expert_intermediate_size: usize,
    pub norm_topk_prob: bool,
    pub ple_layer_ids: Vec<usize>,
    pub ple_conv_kernel_size: usize,
    pub ple_embed_dim: usize,
    pub ngram_size: usize,
    pub heads_per_ngram: usize,
    pub indexer_n_heads: usize,
    pub indexer_kv_heads: usize,
    pub indexer_head_dim: usize,
    pub indexer_budget: usize,
    pub indexer_compress_ratio: usize,
    pub output_gate_type: String,
    pub eos_token_id: u32,
    pub mtp_num_hidden_layers: usize,
}

#[derive(Debug, Clone, Copy)]
pub struct RopeParams {
    pub rope_theta: Real64,
}

/// The residual streams and the n-gram convolution kernel where the file names none.
pub fn four() -> (r: usize)
    ensures
        r == 4,
{
    4
}

/// The n-gram size where the file names none.
pub fn three() -> (r: usize)
    ensures
        r == 3,
{
    3
}

/// The heads per n-gram where the file names none.
pub fn eight() -> (r: usize)
    ensures
        r == 8,
{
    8
}

/// The rank of the residual gates where the file names none.
pub fn d320() -> (r: usize)
    ensures
        r == 320,
{
    320
}

/// Router weights are renormalized where the file does not say.
pub fn yes() -> (r: bool)
    ensures
        r,
{
    true
}

/// The output gate where the file names none.
pub fn silu() -> (r: String)
    ensures
        r@ == "silu"@,
{
    "silu".to_owned()
}

/// Why a model cannot be used.
#[derive(Debug)]
pub enum ModelConfigError {
    /// The file names no model type.
    NoModelType,
    /// The file is of another model.
    UnsupportedModel(String),
    /// The text part is of another model.
    NotTextModel,
    LayerTypes,
    ResidualStreams,
}

impl ModelConfigError {
    pub open spec fn text(self) -> Seq<char> {
        match self {
            ModelConfigError::NoModelType => "model_type missing"@,
            ModelConfigError::UnsupportedModel(name) => "unsupported model_type "@ + name@ + "; expected qwen4_exp"@,
            ModelConfigError::NotTextModel => "expected qwen4_exp_text configuration"@,
            ModelConfigError::LayerTypes => "layer_types length mismatch"@,
            ModelConfigError::ResidualStreams => "hc_count must exceed 1"@,
        }
    }

    pub fn message(&self) -> (r: String)
        ensures
            r@ == self.text(),
    {
        match self {
            ModelConfigError::NoModelType => "model_type missing".to_owned(),
            ModelConfigError::UnsupportedModel(name) => {
                let mut out: String = "unsupported model_type ".to_owned();
                out.append(name.as_str());
                out.append("; expected qwen4_exp");
                out
            },
            ModelConfigError::NotTextModel => "expected qwen4_exp_text configuration".to_owned(),
            ModelConfigError::LayerTypes => "layer_types length mismatch".to_owned(),
            ModelConfigError::ResidualStreams => "hc_count must exceed 1".to_owned(),
        }
    }
}

/// The part of a model's configuration that is about text: its own part, or the whole.
pub open spec fn text_part(root: Tree) -> Tree {
    match json::field(root, "text_config"@) {
        Some(part) => part,
        None => root,
    }
}

/// Finds the text part of a model's configuration, where the model is one that this engine
/// runs.
pub fn text_config(root: &Json) -> (r: Result<Json, ModelConfigError>)
    ensures
        match json::at(root.tree(), "model_type"@) {
            Tree::Text(name) => if name != "qwen4_exp"@ && name != "qwen4_exp_text"@ {
                r matches Err(ModelConfigError::UnsupportedModel(n)) && n@ == name
            } else if json::at(text_part(root.tree()), "model_type"@) != Tree::Text("qwen4_exp_text"@) {
                r matches Err(ModelConfigError::NotTextModel)
            } else {
                r matches Ok(part) && part.tree() == text_part(root.tree())
            },
            _ => r matches Err(ModelConfigError::NoModelType),
        },
{
    let name: &str = match root.text_at("model_type") {
        Some(name) => name,
        None => return Err(ModelConfigError::NoModelType),
    };
    if !same(name, "qwen4_exp") && !same(name, "qwen4_exp_text") {
        return Err(ModelConfigError::UnsupportedModel(name.to_owned()));
    }
    let part: &Json = match root.get("text_config") {
        Some(part) => part,
        None => root,
    };
    let known: bool = match part.text_at("model_type") {
        Some(name) => same(name, "qwen4_exp_text"),
        None => false,
    };
    if !known {
        return Err(ModelConfigError::NotTextModel);
    }
    Ok(part.copy())
}

impl Qwen4ExpConfig {
    /// What a parsed configuration has to satisfy.
    pub fn check(&self) -> (r: Result<(), ModelConfigError>)
        ensures
            if self.layer_types@.len() != self.num_hidden_layers {
                r matches Err(ModelConfigError::LayerTypes)
            } else if self.hc_count <= 1 {
                r matches Err(ModelConfigError::ResidualStreams)
            } else {
                r is Ok
            },
    {
        if self.layer_types.len() != self.num_hidden_layers {
            return Err(ModelConfigError::LayerTypes);
        }
        if self.hc_count <= 1 {
            return Err(ModelConfigError::ResidualStreams);
        }
        Ok(())
    }

    pub fn is_linear(&self, layer: usize) -> (r: bool)
        requires
            layer < self.layer_types@.len(),
        ensures
            r == (self.layer_types@[layer as int]@ == "linear_attention"@),
    {
        same(self.layer_types[layer].as_str(), "linear_attention")
    }

    /// Zero-based layer index carrying the n-gram block, if any.
    pub fn ple_layer(&self) -> (r: Option<usize>)
        requires
            self.ple_layer_ids@.len() > 0 ==> self.ple_layer_ids@[0] > 0,
        ensures
            r == if self.ple_layer_ids@.len() == 0 {
                None
            } else {
                Some((self.ple_layer_ids@[0] - 1) as usize)
            },
    {
        if self.ple_layer_ids.len() == 0 {
            None
        } else {
            Some(self.ple_layer_ids[0] - 1)
        }
    }

    /// The width of the replicated residual stream.
    pub open spec fn stream(self) -> nat {
        self.hc_count as nat * self.hidden_size as nat
    }

    pub fn hc_hidden(&self) -> (r: usize)
        requires
            self.stream() <= usize::MAX,
        ensures
            r == self.stream(),
    {
        self.hc_count * self.hidden_size
    }
}

/// A model's configuration is accepted exactly where every layer has a type and there is more than one
/// residual stream.
pub proof fn law_model_checked(c: Qwen4ExpConfig, r: Result<(), ModelConfigError>)
    requires
        call_ensures(Qwen4ExpConfig::check, (&c,), r),
    ensures
        r is Ok <==> c.layer_types@.len() == c.num_hidden_layers && c.hc_count >= 2,
        c.layer_types@.len() != c.num_hidden_layers ==> r is Err && r->Err_0 is LayerTypes,
{
}

/// The layer with embeddings of its own is the first that is named, counted from one.
pub proof fn law_ple_layer(c: Qwen4ExpConfig, r: Option<usize>)
    requires
        call_ensures(Qwen4ExpConfig::ple_layer, (&c,), r),
        c.ple_layer_ids@.len() > 0 ==> c.ple_layer_ids@[0] > 0,
    ensures
        r is None <==> c.ple_layer_ids@.len() == 0,
        r matches Some(layer) ==> layer + 1 == c.ple_layer_ids@[0],
{
}

/// The text model's part is read where the model is of this family: the part under its own key, and the
/// whole where there is none.
pub proof fn law_text_config(root: Json, r: Result<Json, ModelConfigError>)
    requires
        call_ensures(text_config, (&root,), r),
    ensures
        r matches Ok(part) ==> {
            &&& json::at(root.tree(), "model_type"@) == Tree::Text("qwen4_exp"@) || json::at(root.tree(), "model_type"@)
                == Tree::Text("qwen4_exp_text"@)
            &&& json::at(part.tree(), "model_type"@) == Tree::Text("qwen4_exp_text"@)
            &&& json::field(root.tree(), "text_config"@) matches Some(inner) ==> part.tree() == inner
            &&& json::field(root.tree(), "text_config"@) is None ==> part.tree() == root.tree()
        },
        !(json::at(root.tree(), "model_type"@) is Text) ==> r is Err && r->Err_0 is NoModelType,
{
}

} // verus!
