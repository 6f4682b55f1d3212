//! The conversion from end to end: extract the pairs, rename them, and, in
//! the typed mode, fill in a placeholder where no embedding adapter came.

use crate::dummy::{is_dummy_pair, DummyShape};
use crate::pairs::{extract_pairs, extraction, is_extraction, PairView};
use crate::prefix::CandleLoraPrefix;
use crate::rules::{class_of, llama_rules, LayerRules, RulesView};
use crate::rename::{
    class_count, count_class, factor_key, factor_name, is_placement, is_typed_output,
    is_untyped_output, lemma_class_count_grows, lemma_class_of_key, rename_pairs,
    rename_pairs_typed, typed_keys, Factor,
};
use crate::table::NamedTensors;
use crate::tensor::zeros_f32;
use candle_core::{Device, Error, Tensor};
use vstd::prelude::*;

verus! {

/// Why a conversion did not come about.
#[derive(Debug)]
pub enum ConvertError {
    /// The directory holds the adapter's weights under neither of the two
    /// file names.
    MissingAdapterFile,
    /// The tensor backend refused an operation.
    Backend(Error),
}

/// The name of a placeholder factor: index zero of the embedding class.
pub open spec fn dummy_key(factor: Factor) -> Seq<char> {
    factor_key(CandleLoraPrefix::Llama.text(), factor, 0)
}

/// A placeholder is due: it was asked for, and no pair belongs to the
/// embedding class.
pub open spec fn needs_dummy(
    pairs: Seq<PairView>,
    rules: RulesView,
    add_dummy_embeddings: bool,
) -> bool {
    add_dummy_embeddings && class_count(pairs, rules, CandleLoraPrefix::Llama, pairs.len() as int)
        == 0
}

/// `out` is the typed renaming of `pairs` by `rules` and, besides, a
/// placeholder pair of the sizes of `shape` under the two names of
/// [`dummy_key`].
pub open spec fn is_typed_output_with_dummy(
    out: Map<Seq<char>, Tensor>,
    pairs: Seq<PairView>,
    rules: RulesView,
    shape: DummyShape,
) -> bool {
    &&& out.contains_key(dummy_key(Factor::A))
    &&& out.contains_key(dummy_key(Factor::B))
    &&& is_dummy_pair(out[dummy_key(Factor::A)], out[dummy_key(Factor::B)], shape)
    &&& is_typed_output(
        out.remove(dummy_key(Factor::A)).remove(dummy_key(Factor::B)),
        pairs,
        rules,
    )
}

/// Where no pair belongs to the embedding class, the typed renaming holds
/// neither placeholder name.
pub proof fn lemma_dummy_keys_free(
    out: Map<Seq<char>, Tensor>,
    pairs: Seq<PairView>,
    rules: RulesView,
)
    requires
        is_typed_output(out, pairs, rules),
        class_count(pairs, rules, CandleLoraPrefix::Llama, pairs.len() as int) == 0,
    ensures
        !out.contains_key(dummy_key(Factor::A)),
        !out.contains_key(dummy_key(Factor::B)),
{
    let key = typed_keys(pairs, rules);
    let n = pairs.len() as int;
    assert forall|g: Factor| !out.contains_key(#[trigger] dummy_key(g)) by {
        if out.contains_key(dummy_key(g)) {
            let (i, f) = choose|i: int, f: Factor|
                0 <= i < n && dummy_key(g) == #[trigger] key(i, f);
            let c = class_of(rules, pairs[i].base);
            lemma_class_of_key(
                CandleLoraPrefix::Llama,
                g,
                0,
                c,
                f,
                class_count(pairs, rules, c, i),
            );
            lemma_class_count_grows(pairs, rules, CandleLoraPrefix::Llama, i, n);
        }
    }
    assert(!out.contains_key(dummy_key(Factor::A)));
    assert(!out.contains_key(dummy_key(Factor::B)));
}

/// The table `out` with the placeholder pair `dummy_a`, `dummy_b` stored
/// under index zero of the embedding class.
pub fn insert_dummy_pair(out: NamedTensors, dummy_a: Tensor, dummy_b: Tensor) -> (r: NamedTensors)
    ensures
        r@ == out@.insert(dummy_key(Factor::A), dummy_a).insert(dummy_key(Factor::B), dummy_b),
{
    let mut r = out;
    let prefix = CandleLoraPrefix::Llama;
    r.insert(factor_name(prefix.as_str(), Factor::A, 0), dummy_a);
    r.insert(factor_name(prefix.as_str(), Factor::B, 0), dummy_b);
    r
}

/// Converts the adapters of `peft` to names under the one `prefix`: the
/// pairs that `peft` holds in full, in ascending order of their layers'
/// names, numbered from zero.
pub fn convert_peft_to_candle_lora(peft: &NamedTensors, prefix: &str) -> (out: NamedTensors)
    ensures
        is_extraction(peft@, extraction(peft@)),
        is_untyped_output(out@, extraction(peft@), prefix@),
{
    let pairs = extract_pairs(peft);
    rename_pairs(&pairs, prefix)
}

/// Converts the adapters of `peft` to names under the prefixes of their
/// layers' classes, as `rules` assign them, each class numbered from zero.
/// Where `add_dummy_embeddings` is set and no pair belongs to the embedding
/// class, a placeholder pair of zeros of the sizes of `dummy_shape`, made on
/// `device`, is stored under index zero of that class; the conversion fails
/// only where the device refuses to make it.
pub fn convert_peft_to_candle_lora_typed_with_rules(
    peft: &NamedTensors,
    rules: &LayerRules,
    device: &Device,
    add_dummy_embeddings: bool,
    dummy_shape: &DummyShape,
) -> (r: Result<NamedTensors, ConvertError>)
    ensures
        is_extraction(peft@, extraction(peft@)),
        !needs_dummy(extraction(peft@), rules@, add_dummy_embeddings) ==> r is Ok
            && is_typed_output(r->Ok_0@, extraction(peft@), rules@),
        needs_dummy(extraction(peft@), rules@, add_dummy_embeddings) ==> match r {
            Ok(out) => is_typed_output_with_dummy(out@, extraction(peft@), rules@, *dummy_shape),
            Err(e) => e is Backend,
        },
{
    let pairs = extract_pairs(peft);
    let out = rename_pairs_typed(&pairs, rules);
    if !add_dummy_embeddings || count_class(&pairs, rules, CandleLoraPrefix::Llama) != 0 {
        return Ok(out);
    }
    proof {
        use_type_invariant(dummy_shape);
    }
    let dummy_a = match zeros_f32(dummy_shape.rank(), dummy_shape.vocab_size(), device) {
        Ok(t) => t,
        Err(e) => {
            return Err(ConvertError::Backend(e));
        },
    };
    let dummy_b = match zeros_f32(dummy_shape.hidden_size(), dummy_shape.rank(), device) {
        Ok(t) => t,
        Err(e) => {
            return Err(ConvertError::Backend(e));
        },
    };
    let ghost plain = out@;
    let r = insert_dummy_pair(out, dummy_a, dummy_b);
    proof {
        let ka = dummy_key(Factor::A);
        let kb = dummy_key(Factor::B);
        lemma_dummy_keys_free(plain, extraction(peft@), rules@);
        if ka == kb {
            lemma_class_of_key(
                CandleLoraPrefix::Llama,
                Factor::A,
                0,
                CandleLoraPrefix::Llama,
                Factor::B,
                0,
            );
        }
        assert(r@.remove(ka).remove(kb) =~= plain);
    }
    Ok(r)
}

/// Converts the adapters of `peft` to names under the prefixes of their
/// layers' classes, by the rules of the Llama family, each class numbered
/// from zero; with a placeholder pair as
/// [`convert_peft_to_candle_lora_typed_with_rules`] adds it.
pub fn convert_peft_to_candle_lora_typed(
    peft: &NamedTensors,
    device: &Device,
    add_dummy_embeddings: bool,
    dummy_shape: &DummyShape,
) -> (r: Result<NamedTensors, ConvertError>)
    ensures
        is_extraction(peft@, extraction(peft@)),
        !needs_dummy(extraction(peft@), llama_rules(), add_dummy_embeddings) ==> r is Ok
            && is_typed_output(r->Ok_0@, extraction(peft@), llama_rules()),
        needs_dummy(extraction(peft@), llama_rules(), add_dummy_embeddings) ==> match r {
            Ok(out) => is_typed_output_with_dummy(
                out@,
                extraction(peft@),
                llama_rules(),
                *dummy_shape,
            ),
            Err(e) => e is Backend,
        },
{
    let rules = LayerRules::llama();
    convert_peft_to_candle_lora_typed_with_rules(
        peft,
        &rules,
        device,
        add_dummy_embeddings,
        dummy_shape,
    )
}

/// The file under which a directory holds the adapter's weights, where both
/// candidates were looked for: the first if it is there, else the second.
pub open spec fn selected_file(has_adapter_model: bool, has_adapter: bool) -> Option<Seq<char>> {
    if has_adapter_model {
        Some("adapter_model.safetensors"@)
    } else if has_adapter {
        Some("adapter.safetensors"@)
    } else {
        None
    }
}

/// The file name that is tried first for the adapter's weights.
pub fn adapter_model_file() -> (r: &'static str)
    ensures
        r@ == "adapter_model.safetensors"@,
{
    "adapter_model.safetensors"
}

/// The file name that is tried second for the adapter's weights.
pub fn adapter_file() -> (r: &'static str)
    ensures
        r@ == "adapter.safetensors"@,
{
    "adapter.safetensors"
}

/// The file name of the adapter's optional configuration.
pub fn adapter_config_file() -> (r: &'static str)
    ensures
        r@ == "adapter_config.json"@,
{
    "adapter_config.json"
}

/// Picks the weights file of a directory from what is known of the two
/// candidates: `has_adapter_model` says whether the first exists,
/// `has_adapter` whether the second does.
pub fn select_adapter_file(has_adapter_model: bool, has_adapter: bool) -> (r: Result<
    &'static str,
    ConvertError,
>)
    ensures
        match r {
            Ok(name) => selected_file(has_adapter_model, has_adapter) == Some(name@),
            Err(e) => selected_file(has_adapter_model, has_adapter) is None
                && e is MissingAdapterFile,
        },
{
    if has_adapter_model {
        Ok(adapter_model_file())
    } else if has_adapter {
        Ok(adapter_file())
    } else {
        Err(ConvertError::MissingAdapterFile)
    }
}

/// What to tell the caller where neither candidate exists.
pub fn missing_adapter_message() -> (r: &'static str)
    ensures
        r@ == "No adapter weights found (tried adapter_model.safetensors and adapter.safetensors)"@,
{
    "No adapter weights found (tried adapter_model.safetensors and adapter.safetensors)"
}

} // verus!
