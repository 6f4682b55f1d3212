use candle_core::{DType, Device, Tensor};
use peft_convert::convert::insert_dummy_pair;
use peft_convert::rename::count_class;
use peft_convert::{
    convert_peft_to_candle_lora, convert_peft_to_candle_lora_typed,
    convert_peft_to_candle_lora_typed_with_rules, extract_pairs, rename_pairs, rename_pairs_typed,
    CandleLoraPrefix, DummyShape, LayerRule, LayerRules, NamedTensors,
};

fn tensor(rows: usize, cols: usize) -> Tensor {
    Tensor::zeros((rows, cols), DType::F32, &Device::Cpu).unwrap()
}

fn table_of(names: &[&str]) -> NamedTensors {
    let mut t = NamedTensors::new();
    for name in names {
        t.insert(name.to_string(), tensor(2, 3));
    }
    t
}

fn sorted_keys(t: &NamedTensors) -> Vec<String> {
    let mut keys = t.keys();
    keys.sort();
    keys
}

fn same_tensor(out: &NamedTensors, new_name: &str, src: &NamedTensors, old_name: &str) -> bool {
    out.get(new_name).unwrap().id() == src.get(old_name).unwrap().id()
}

#[test]
fn table_insert_and_get() {
    let mut t = NamedTensors::new();
    assert!(t.is_empty());
    assert_eq!(t.len(), 0);
    assert!(t.get("x").is_none());
    let first = tensor(1, 2);
    let second = tensor(3, 4);
    t.insert("x".to_string(), first.clone());
    t.insert("y".to_string(), second.clone());
    assert_eq!(t.len(), 2);
    assert!(!t.is_empty());
    assert!(t.contains_key("x"));
    assert!(!t.contains_key("z"));
    assert_eq!(t.get("x").unwrap().id(), first.id());
    assert_eq!(t.get("y").unwrap().id(), second.id());
    assert_eq!(sorted_keys(&t), vec!["x".to_string(), "y".to_string()]);
}

#[test]
fn table_insert_replaces() {
    let mut t = NamedTensors::new();
    let first = tensor(1, 2);
    let second = tensor(3, 4);
    t.insert("x".to_string(), first.clone());
    t.insert("x".to_string(), second.clone());
    assert_eq!(t.len(), 1);
    assert_eq!(t.get("x").unwrap().id(), second.id());
    assert_eq!(t.get("x").unwrap().dims(), &[3, 4]);
}

#[test]
fn pairs_are_sorted_by_layer_name() {
    let src = table_of(&[
        "layers.2.q.lora_B.weight",
        "layers.10.q.lora_A.weight",
        "layers.2.q.lora_A.weight",
        "layers.1.q.lora_A.weight",
        "layers.10.q.lora_B.weight",
        "layers.1.q.lora_B.weight",
    ]);
    let pairs = extract_pairs(&src);
    let bases: Vec<&str> = pairs.iter().map(|p| p.base_name.as_str()).collect();
    assert_eq!(bases, vec!["layers.1.q", "layers.10.q", "layers.2.q"]);
    for p in &pairs {
        let a = format!("{}.lora_A.weight", p.base_name);
        let b = format!("{}.lora_B.weight", p.base_name);
        assert_eq!(p.factor_a.id(), src.get(&a).unwrap().id());
        assert_eq!(p.factor_b.id(), src.get(&b).unwrap().id());
    }
}

#[test]
fn untyped_conversion_of_two_attention_layers() {
    let mut src = NamedTensors::new();
    src.insert("layers.1.self_attn.q_proj.lora_B.weight".to_string(), tensor(16, 128));
    src.insert("layers.0.self_attn.q_proj.lora_A.weight".to_string(), tensor(128, 16));
    src.insert("layers.1.self_attn.q_proj.lora_A.weight".to_string(), tensor(128, 16));
    src.insert("layers.0.self_attn.q_proj.lora_B.weight".to_string(), tensor(16, 128));
    let out = convert_peft_to_candle_lora(&src, "lora_llama");
    assert_eq!(
        sorted_keys(&out),
        vec![
            "lora_llama.a0.weight".to_string(),
            "lora_llama.a1.weight".to_string(),
            "lora_llama.b0.weight".to_string(),
            "lora_llama.b1.weight".to_string(),
        ]
    );
    assert!(same_tensor(&out, "lora_llama.a0.weight", &src, "layers.0.self_attn.q_proj.lora_A.weight"));
    assert!(same_tensor(&out, "lora_llama.b0.weight", &src, "layers.0.self_attn.q_proj.lora_B.weight"));
    assert!(same_tensor(&out, "lora_llama.a1.weight", &src, "layers.1.self_attn.q_proj.lora_A.weight"));
    assert!(same_tensor(&out, "lora_llama.b1.weight", &src, "layers.1.self_attn.q_proj.lora_B.weight"));
    assert_eq!(out.get("lora_llama.a0.weight").unwrap().dims(), &[128, 16]);
    assert_eq!(out.get("lora_llama.b0.weight").unwrap().dims(), &[16, 128]);
}

#[test]
fn emitted_pairs_equal_matched_pairs() {
    let src = table_of(&[
        "a.lora_A.weight",
        "a.lora_B.weight",
        "b.lora_A.weight",
        "b.lora_B.weight",
        "c.lora_A.weight",
        "c.lora_B.weight",
    ]);
    assert_eq!(extract_pairs(&src).len(), 3);
    let out = convert_peft_to_candle_lora(&src, "p");
    assert_eq!(out.len(), 6);
    assert!(2 * extract_pairs(&src).len() <= src.len());
    assert_eq!(convert_peft_to_candle_lora(&NamedTensors::new(), "p").len(), 0);
}

#[test]
fn output_does_not_depend_on_insertion_order() {
    let names = [
        "m.layers.0.self_attn.q_proj.lora_A.weight",
        "m.layers.0.self_attn.q_proj.lora_B.weight",
        "m.layers.0.mlp.up_proj.lora_A.weight",
        "m.layers.0.mlp.up_proj.lora_B.weight",
        "m.embed_tokens.lora_A.weight",
        "m.embed_tokens.lora_B.weight",
        "m.layers.1.self_attn.k_proj.lora_A.weight",
        "m.layers.1.self_attn.k_proj.lora_B.weight",
    ];
    let tensors: Vec<Tensor> = names.iter().map(|_| tensor(2, 2)).collect();
    let mut forward = NamedTensors::new();
    for i in 0..names.len() {
        forward.insert(names[i].to_string(), tensors[i].clone());
    }
    let mut backward = NamedTensors::new();
    for i in (0..names.len()).rev() {
        backward.insert(names[i].to_string(), tensors[i].clone());
    }
    let shape = DummyShape::new(8, 4, 2).unwrap();
    let one = convert_peft_to_candle_lora(&forward, "lora_llama");
    let two = convert_peft_to_candle_lora(&backward, "lora_llama");
    assert_eq!(sorted_keys(&one), sorted_keys(&two));
    for key in one.keys() {
        assert_eq!(one.get(&key).unwrap().id(), two.get(&key).unwrap().id());
    }
    let one = convert_peft_to_candle_lora_typed(&forward, &Device::Cpu, false, &shape).unwrap();
    let two = convert_peft_to_candle_lora_typed(&backward, &Device::Cpu, false, &shape).unwrap();
    assert_eq!(sorted_keys(&one), sorted_keys(&two));
    for key in one.keys() {
        assert_eq!(one.get(&key).unwrap().id(), two.get(&key).unwrap().id());
    }
}

#[test]
fn orphaned_factors_are_left_out() {
    let src = table_of(&[
        "a.lora_A.weight",
        "b.lora_A.weight",
        "b.lora_B.weight",
        "c.lora_B.weight",
        "d.lora_A.weight",
        "d.lora_B.weight",
        "e.weight",
        "f.lora_A.weight.old",
        "g.lora_A.weight.lora_B.weight",
    ]);
    let pairs = extract_pairs(&src);
    let bases: Vec<&str> = pairs.iter().map(|p| p.base_name.as_str()).collect();
    assert_eq!(bases, vec!["b", "d"]);
    let out = convert_peft_to_candle_lora(&src, "x");
    assert_eq!(
        sorted_keys(&out),
        vec![
            "x.a0.weight".to_string(),
            "x.a1.weight".to_string(),
            "x.b0.weight".to_string(),
            "x.b1.weight".to_string(),
        ]
    );
    assert!(same_tensor(&out, "x.a0.weight", &src, "b.lora_A.weight"));
    assert!(same_tensor(&out, "x.b1.weight", &src, "d.lora_B.weight"));
}

#[test]
fn a_name_with_the_marker_inside_is_no_factor() {
    let src = table_of(&["x.lora_A.weight.y", "x.y.lora_B.weight", "x.y"]);
    assert_eq!(extract_pairs(&src).len(), 0);
    assert!(convert_peft_to_candle_lora(&src, "p").is_empty());
}

#[test]
fn indices_are_written_in_decimal() {
    let mut names = Vec::new();
    for i in 0..12 {
        names.push(format!("l{:02}.lora_A.weight", i));
        names.push(format!("l{:02}.lora_B.weight", i));
    }
    let refs: Vec<&str> = names.iter().map(|s| s.as_str()).collect();
    let src = table_of(&refs);
    let out = convert_peft_to_candle_lora(&src, "p");
    assert_eq!(out.len(), 24);
    assert!(same_tensor(&out, "p.a10.weight", &src, "l10.lora_A.weight"));
    assert!(same_tensor(&out, "p.b11.weight", &src, "l11.lora_B.weight"));
    assert!(same_tensor(&out, "p.a9.weight", &src, "l09.lora_A.weight"));
}

#[test]
fn typed_counters_are_independent() {
    let names = [
        "m.layers.0.mlp.up_proj",
        "m.layers.0.self_attn.q_proj",
        "m.layers.0.self_attn.v_proj",
        "m.layers.1.mlp.up_proj",
        "m.layers.1.self_attn.q_proj",
        "m.lm_head",
        "m.embed_tokens",
    ];
    let mut src = NamedTensors::new();
    for n in names {
        src.insert(format!("{}.lora_A.weight", n), tensor(2, 2));
        src.insert(format!("{}.lora_B.weight", n), tensor(2, 2));
    }
    let shape = DummyShape::new(8, 4, 2).unwrap();
    let out = convert_peft_to_candle_lora_typed(&src, &Device::Cpu, true, &shape).unwrap();
    assert_eq!(out.len(), 14);
    let expect = [
        ("lora_llama.a0.weight", "m.embed_tokens.lora_A.weight"),
        ("lora_llama.b0.weight", "m.embed_tokens.lora_B.weight"),
        ("lora_llama.a1.weight", "m.lm_head.lora_A.weight"),
        ("lora_llama.b1.weight", "m.lm_head.lora_B.weight"),
        ("lora_llama_csa.a0.weight", "m.layers.0.self_attn.q_proj.lora_A.weight"),
        ("lora_llama_csa.b0.weight", "m.layers.0.self_attn.q_proj.lora_B.weight"),
        ("lora_llama_csa.a1.weight", "m.layers.0.self_attn.v_proj.lora_A.weight"),
        ("lora_llama_csa.a2.weight", "m.layers.1.self_attn.q_proj.lora_A.weight"),
        ("lora_llama_csa.b2.weight", "m.layers.1.self_attn.q_proj.lora_B.weight"),
        ("lora_llama_block.a0.weight", "m.layers.0.mlp.up_proj.lora_A.weight"),
        ("lora_llama_block.a1.weight", "m.layers.1.mlp.up_proj.lora_A.weight"),
        ("lora_llama_block.b1.weight", "m.layers.1.mlp.up_proj.lora_B.weight"),
    ];
    for (new_name, old_name) in expect {
        assert!(same_tensor(&out, new_name, &src, old_name), "{}", new_name);
    }
    let pairs = extract_pairs(&src);
    let rules = LayerRules::llama();
    assert_eq!(count_class(&pairs, &rules, CandleLoraPrefix::Llama), 2);
    assert_eq!(count_class(&pairs, &rules, CandleLoraPrefix::LlamaCsa), 3);
    assert_eq!(count_class(&pairs, &rules, CandleLoraPrefix::LlamaBlock), 2);
}

#[test]
fn empty_classes_reserve_nothing() {
    let src = table_of(&["m.layers.0.mlp.up_proj.lora_A.weight", "m.layers.0.mlp.up_proj.lora_B.weight"]);
    let shape = DummyShape::new(8, 4, 2).unwrap();
    let out = convert_peft_to_candle_lora_typed(&src, &Device::Cpu, false, &shape).unwrap();
    assert_eq!(
        sorted_keys(&out),
        vec!["lora_llama_block.a0.weight".to_string(), "lora_llama_block.b0.weight".to_string()]
    );
}

#[test]
fn dummy_pair_is_added_where_no_embedding_came() {
    let mut src = NamedTensors::new();
    src.insert("layers.0.self_attn.q_proj.lora_A.weight".to_string(), tensor(128, 16));
    src.insert("layers.0.self_attn.q_proj.lora_B.weight".to_string(), tensor(16, 128));
    let shape = DummyShape::new(320, 64, 4).unwrap();
    let out = convert_peft_to_candle_lora_typed(&src, &Device::Cpu, true, &shape).unwrap();
    assert_eq!(
        sorted_keys(&out),
        vec![
            "lora_llama.a0.weight".to_string(),
            "lora_llama.b0.weight".to_string(),
            "lora_llama_csa.a0.weight".to_string(),
            "lora_llama_csa.b0.weight".to_string(),
        ]
    );
    let a = out.get("lora_llama.a0.weight").unwrap();
    let b = out.get("lora_llama.b0.weight").unwrap();
    assert_eq!(a.dims(), &[4, 320]);
    assert_eq!(b.dims(), &[64, 4]);
    assert_eq!(a.dtype(), DType::F32);
    assert_eq!(b.dtype(), DType::F32);
    assert!(a.to_vec2::<f32>().unwrap().iter().flatten().all(|x| *x == 0.0));
    assert!(b.to_vec2::<f32>().unwrap().iter().flatten().all(|x| *x == 0.0));
    assert!(same_tensor(&out, "lora_llama_csa.a0.weight", &src, "layers.0.self_attn.q_proj.lora_A.weight"));
    assert!(same_tensor(&out, "lora_llama_csa.b0.weight", &src, "layers.0.self_attn.q_proj.lora_B.weight"));
}

#[test]
fn dummy_pair_of_tiny_llama_sizes() {
    let shape = DummyShape::new(32000, 2048, 4).unwrap();
    assert_eq!(shape.vocab_size(), 32000);
    assert_eq!(shape.hidden_size(), 2048);
    assert_eq!(shape.rank(), 4);
    let out =
        convert_peft_to_candle_lora_typed(&NamedTensors::new(), &Device::Cpu, true, &shape).unwrap();
    assert_eq!(out.len(), 2);
    assert_eq!(out.get("lora_llama.a0.weight").unwrap().dims(), &[4, 32000]);
    assert_eq!(out.get("lora_llama.b0.weight").unwrap().dims(), &[2048, 4]);
}

#[test]
fn no_dummy_without_the_flag() {
    let src = table_of(&[
        "layers.0.self_attn.q_proj.lora_A.weight",
        "layers.0.self_attn.q_proj.lora_B.weight",
    ]);
    let shape = DummyShape::new(320, 64, 4).unwrap();
    let out = convert_peft_to_candle_lora_typed(&src, &Device::Cpu, false, &shape).unwrap();
    assert_eq!(out.len(), 2);
    assert!(!out.contains_key("lora_llama.a0.weight"));
    assert!(!out.contains_key("lora_llama.b0.weight"));
}

#[test]
fn no_dummy_where_an_embedding_came() {
    let src = table_of(&["m.embed_tokens.lora_A.weight", "m.embed_tokens.lora_B.weight"]);
    let shape = DummyShape::new(320, 64, 4).unwrap();
    for flag in [false, true] {
        let out = convert_peft_to_candle_lora_typed(&src, &Device::Cpu, flag, &shape).unwrap();
        assert_eq!(out.len(), 2);
        assert!(same_tensor(&out, "lora_llama.a0.weight", &src, "m.embed_tokens.lora_A.weight"));
        assert!(same_tensor(&out, "lora_llama.b0.weight", &src, "m.embed_tokens.lora_B.weight"));
        assert_eq!(out.get("lora_llama.a0.weight").unwrap().dims(), &[2, 3]);
    }
}

#[test]
fn shapes_that_do_not_fit_are_refused() {
    assert!(DummyShape::new(usize::MAX, 1, 2).is_none());
    assert!(DummyShape::new(1, usize::MAX, 2).is_none());
    assert!(DummyShape::new(usize::MAX / 4, 1, 1).is_none());
    assert!(DummyShape::new(1, 1, (isize::MAX as usize) / 4 + 1).is_none());
    assert!(DummyShape::new(1, 1, (isize::MAX as usize) / 4).is_some());
    assert!(DummyShape::new(0, 0, 0).is_some());
    assert!(DummyShape::new(usize::MAX, usize::MAX, 0).is_some());
}

#[test]
fn renamers_take_pairs_in_the_order_given() {
    let src = table_of(&[
        "b.self_attn.q_proj.lora_A.weight",
        "b.self_attn.q_proj.lora_B.weight",
        "a.mlp.lora_A.weight",
        "a.mlp.lora_B.weight",
    ]);
    let mut pairs = extract_pairs(&src);
    pairs.reverse();
    let out = rename_pairs(&pairs, "p");
    assert!(same_tensor(&out, "p.a0.weight", &src, "b.self_attn.q_proj.lora_A.weight"));
    assert!(same_tensor(&out, "p.b1.weight", &src, "a.mlp.lora_B.weight"));
    let out = rename_pairs_typed(&pairs, &LayerRules::llama());
    assert!(same_tensor(&out, "lora_llama_csa.a0.weight", &src, "b.self_attn.q_proj.lora_A.weight"));
    assert!(same_tensor(&out, "lora_llama_block.b0.weight", &src, "a.mlp.lora_B.weight"));
}

#[test]
fn dummy_pair_goes_under_index_zero() {
    let a = tensor(1, 2);
    let b = tensor(2, 1);
    let out = insert_dummy_pair(NamedTensors::new(), a.clone(), b.clone());
    assert_eq!(out.len(), 2);
    assert_eq!(out.get("lora_llama.a0.weight").unwrap().id(), a.id());
    assert_eq!(out.get("lora_llama.b0.weight").unwrap().id(), b.id());
}

fn gpt_rules() -> LayerRules {
    LayerRules {
        rules: vec![
            LayerRule {
                all_of: vec!["attn".to_string()],
                any_of: vec!["c_attn".to_string(), "c_proj".to_string()],
                class: CandleLoraPrefix::LlamaCsa,
            },
            LayerRule {
                all_of: vec![],
                any_of: vec!["wte".to_string(), "wpe".to_string()],
                class: CandleLoraPrefix::Llama,
            },
        ],
        fallback: CandleLoraPrefix::LlamaBlock,
    }
}

#[test]
fn typed_conversion_by_other_rules() {
    let names = ["h.0.attn.c_attn", "h.0.mlp.c_fc", "h.1.attn.c_proj", "wte"];
    let mut src = NamedTensors::new();
    for n in names {
        src.insert(format!("{}.lora_A.weight", n), tensor(2, 2));
        src.insert(format!("{}.lora_B.weight", n), tensor(2, 2));
    }
    let shape = DummyShape::new(8, 4, 2).unwrap();
    let rules = gpt_rules();
    let out =
        convert_peft_to_candle_lora_typed_with_rules(&src, &rules, &Device::Cpu, true, &shape)
            .unwrap();
    assert_eq!(out.len(), 8);
    assert!(same_tensor(&out, "lora_llama_csa.a0.weight", &src, "h.0.attn.c_attn.lora_A.weight"));
    assert!(same_tensor(&out, "lora_llama_csa.b1.weight", &src, "h.1.attn.c_proj.lora_B.weight"));
    assert!(same_tensor(&out, "lora_llama_block.a0.weight", &src, "h.0.mlp.c_fc.lora_A.weight"));
    assert!(same_tensor(&out, "lora_llama.b0.weight", &src, "wte.lora_B.weight"));
    // by the rules of the Llama family none of these is an embedding
    let out = convert_peft_to_candle_lora_typed(&src, &Device::Cpu, true, &shape).unwrap();
    assert_eq!(out.len(), 10);
    assert_eq!(out.get("lora_llama.a0.weight").unwrap().dims(), &[2, 8]);
    assert!(same_tensor(&out, "lora_llama_block.a3.weight", &src, "wte.lora_A.weight"));
}
