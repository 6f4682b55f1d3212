use peft_convert::convert::{
    adapter_config_file, adapter_file, adapter_model_file, missing_adapter_message,
    select_adapter_file, ConvertError,
};
use peft_convert::{CandleLoraPrefix, LayerRule, LayerRules};

#[test]
fn prefix_strings() {
    assert_eq!(CandleLoraPrefix::Llama.as_str(), "lora_llama");
    assert_eq!(CandleLoraPrefix::LlamaCsa.as_str(), "lora_llama_csa");
    assert_eq!(CandleLoraPrefix::LlamaBlock.as_str(), "lora_llama_block");
}

#[test]
fn embedding_and_head_names() {
    assert_eq!(
        CandleLoraPrefix::from_peft_layer_name("base_model.model.embed_tokens"),
        CandleLoraPrefix::Llama
    );
    assert_eq!(
        CandleLoraPrefix::from_peft_layer_name("base_model.model.lm_head"),
        CandleLoraPrefix::Llama
    );
    assert_eq!(CandleLoraPrefix::from_peft_layer_name("lm_head"), CandleLoraPrefix::Llama);
}

#[test]
fn attention_projection_names() {
    for proj in ["q_proj", "k_proj", "v_proj", "o_proj"] {
        let name = format!("base_model.model.layers.0.self_attn.{}", proj);
        assert_eq!(CandleLoraPrefix::from_peft_layer_name(&name), CandleLoraPrefix::LlamaCsa);
    }
}

#[test]
fn other_names_belong_to_a_block() {
    assert_eq!(
        CandleLoraPrefix::from_peft_layer_name("base_model.model.layers.0.mlp.gate_proj"),
        CandleLoraPrefix::LlamaBlock
    );
    assert_eq!(CandleLoraPrefix::from_peft_layer_name(""), CandleLoraPrefix::LlamaBlock);
    // attention without one of the four projections
    assert_eq!(
        CandleLoraPrefix::from_peft_layer_name("layers.0.self_attn.rotary"),
        CandleLoraPrefix::LlamaBlock
    );
    // a projection outside attention
    assert_eq!(
        CandleLoraPrefix::from_peft_layer_name("layers.0.mlp.q_proj"),
        CandleLoraPrefix::LlamaBlock
    );
    // a word cut short is no match
    assert_eq!(
        CandleLoraPrefix::from_peft_layer_name("layers.0.self_att.q_proj"),
        CandleLoraPrefix::LlamaBlock
    );
    assert_eq!(CandleLoraPrefix::from_peft_layer_name("lm_hea"), CandleLoraPrefix::LlamaBlock);
}

#[test]
fn first_rule_wins() {
    assert_eq!(
        CandleLoraPrefix::from_peft_layer_name("embed_tokens.self_attn.q_proj"),
        CandleLoraPrefix::Llama
    );
    assert_eq!(
        CandleLoraPrefix::from_peft_layer_name("layers.3.self_attn.v_proj.lm_head"),
        CandleLoraPrefix::Llama
    );
}

#[test]
fn classification_agrees_with_substring_search() {
    let names = [
        "a",
        "embed_tokens",
        "xembed_tokensx",
        "self_attn",
        "self_attnq_proj",
        "o_projself_attn",
        "k_proj",
        "model.layers.11.self_attn.k_proj",
        "model.layers.11.mlp.down_proj",
        "héllo.self_attn.v_proj",
        "日本語.lm_head",
    ];
    for name in names {
        let expected = if name.contains("embed_tokens") || name.contains("lm_head") {
            CandleLoraPrefix::Llama
        } else if name.contains("self_attn")
            && (name.contains("q_proj")
                || name.contains("k_proj")
                || name.contains("v_proj")
                || name.contains("o_proj"))
        {
            CandleLoraPrefix::LlamaCsa
        } else {
            CandleLoraPrefix::LlamaBlock
        };
        assert_eq!(CandleLoraPrefix::from_peft_layer_name(name), expected, "{}", name);
    }
}

#[test]
fn directory_without_weights_is_an_error() {
    let r = select_adapter_file(false, false);
    assert!(matches!(r, Err(ConvertError::MissingAdapterFile)));
    let message = missing_adapter_message();
    assert!(message.contains("adapter_model.safetensors"));
    assert!(message.contains("adapter.safetensors"));
}

#[test]
fn first_candidate_is_preferred() {
    assert_eq!(select_adapter_file(true, true).unwrap(), "adapter_model.safetensors");
    assert_eq!(select_adapter_file(true, false).unwrap(), "adapter_model.safetensors");
    assert_eq!(select_adapter_file(false, true).unwrap(), "adapter.safetensors");
}

#[test]
fn file_names_of_the_directory_layout() {
    assert_eq!(adapter_model_file(), "adapter_model.safetensors");
    assert_eq!(adapter_file(), "adapter.safetensors");
    assert_eq!(adapter_config_file(), "adapter_config.json");
}

#[test]
fn llama_rules_classify_as_the_fixed_rule() {
    let rules = LayerRules::llama();
    assert_eq!(rules.rules.len(), 2);
    assert_eq!(rules.fallback, CandleLoraPrefix::LlamaBlock);
    let names = [
        "",
        "model.embed_tokens",
        "lm_head",
        "model.layers.0.self_attn.q_proj",
        "model.layers.0.self_attn.k_proj",
        "model.layers.0.self_attn.v_proj",
        "model.layers.0.self_attn.o_proj",
        "model.layers.0.self_attn.rotary",
        "model.layers.0.mlp.q_proj",
        "embed_tokens.self_attn.q_proj",
        "self_attn.q_proj.lm_head",
    ];
    for name in names {
        assert_eq!(rules.classify(name), CandleLoraPrefix::from_peft_layer_name(name), "{}", name);
    }
}

#[test]
fn rules_are_tried_in_order() {
    let rule = |word: &str, class| LayerRule {
        all_of: vec![word.to_string()],
        any_of: vec![],
        class,
    };
    let rules = LayerRules {
        rules: vec![
            rule("a", CandleLoraPrefix::LlamaCsa),
            rule("b", CandleLoraPrefix::Llama),
        ],
        fallback: CandleLoraPrefix::LlamaBlock,
    };
    assert_eq!(rules.classify("xa"), CandleLoraPrefix::LlamaCsa);
    assert_eq!(rules.classify("ab"), CandleLoraPrefix::LlamaCsa);
    assert_eq!(rules.classify("xb"), CandleLoraPrefix::Llama);
    assert_eq!(rules.classify("xc"), CandleLoraPrefix::LlamaBlock);
    let none = LayerRules { rules: vec![], fallback: CandleLoraPrefix::Llama };
    assert_eq!(none.classify("anything"), CandleLoraPrefix::Llama);
}

#[test]
fn a_rule_asks_for_all_and_for_one() {
    let rule = LayerRule {
        all_of: vec!["x".to_string(), "y".to_string()],
        any_of: vec!["1".to_string(), "2".to_string()],
        class: CandleLoraPrefix::Llama,
    };
    assert!(rule.matches("x.y.1"));
    assert!(rule.matches("2yx"));
    assert!(!rule.matches("x.1"));
    assert!(!rule.matches("y.2"));
    assert!(!rule.matches("x.y"));
    assert!(!rule.matches(""));
    let open = LayerRule { all_of: vec![], any_of: vec![], class: CandleLoraPrefix::Llama };
    assert!(open.matches(""));
    assert!(open.matches("anything"));
    let all_only = LayerRule {
        all_of: vec!["x".to_string()],
        any_of: vec![],
        class: CandleLoraPrefix::Llama,
    };
    assert!(all_only.matches("ax"));
    assert!(!all_only.matches("a"));
}
