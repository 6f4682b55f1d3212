use peft_convert::rename::{factor_name, Factor};
use peft_convert::text::{
    chars_contain, chars_end_with, chars_lt, chars_occur_at, contains, decimal, strip_suffix,
    to_chars,
};

#[test]
fn characters_of_a_name() {
    assert_eq!(to_chars(""), Vec::<char>::new());
    assert_eq!(to_chars("a.b"), vec!['a', '.', 'b']);
    assert_eq!(to_chars("é日"), vec!['é', '日']);
}

#[test]
fn infix_search() {
    assert!(contains("layers.0.self_attn.q_proj", "self_attn"));
    assert!(contains("abc", ""));
    assert!(contains("", ""));
    assert!(contains("abc", "abc"));
    assert!(contains("abc", "c"));
    assert!(contains("abc", "a"));
    assert!(!contains("abc", "abcd"));
    assert!(!contains("abc", "ac"));
    assert!(!contains("", "a"));
    assert!(contains("aab", "ab"));
}

#[test]
fn infix_search_on_characters() {
    let hay = to_chars("xxabxx");
    let needle = to_chars("ab");
    assert!(chars_contain(&hay, &needle));
    assert!(chars_occur_at(&hay, &needle, 2));
    assert!(!chars_occur_at(&hay, &needle, 1));
    assert!(!chars_occur_at(&hay, &needle, 4));
    assert!(!chars_occur_at(&hay, &needle, 5));
    assert!(!chars_occur_at(&hay, &needle, 7));
    assert!(!chars_occur_at(&hay, &needle, usize::MAX));
    assert!(chars_occur_at(&hay, &Vec::new(), 6));
    assert!(chars_end_with(&to_chars("xxab"), &needle));
    assert!(!chars_end_with(&hay, &needle));
    assert!(!chars_end_with(&to_chars("b"), &needle));
}

#[test]
fn suffix_is_stripped_only_at_the_end() {
    assert_eq!(
        strip_suffix("layers.0.q_proj.lora_A.weight", ".lora_A.weight"),
        Some("layers.0.q_proj".to_string())
    );
    assert_eq!(strip_suffix(".lora_A.weight", ".lora_A.weight"), Some(String::new()));
    assert_eq!(strip_suffix("layers.0.lora_A.weight.bak", ".lora_A.weight"), None);
    assert_eq!(strip_suffix("lora_A.weight", ".lora_A.weight"), None);
    assert_eq!(strip_suffix("日本.lora_A.weight", ".lora_A.weight"), Some("日本".to_string()));
}

#[test]
fn order_is_that_of_strings() {
    let words = [
        "", "a", "aa", "ab", "b", "layers.0", "layers.1", "layers.10", "layers.2", "A", "é", "z",
        "日本", "layers", "~",
    ];
    for x in words {
        for y in words {
            assert_eq!(chars_lt(&to_chars(x), &to_chars(y)), x < y, "{:?} {:?}", x, y);
        }
    }
}

#[test]
fn decimal_forms() {
    assert_eq!(decimal(0), "0");
    assert_eq!(decimal(7), "7");
    assert_eq!(decimal(9), "9");
    assert_eq!(decimal(10), "10");
    assert_eq!(decimal(11), "11");
    assert_eq!(decimal(100), "100");
    assert_eq!(decimal(1234567890), "1234567890");
    assert_eq!(decimal(usize::MAX), usize::MAX.to_string());
    for d in 0..10 {
        assert_eq!(decimal(d), d.to_string());
    }
}

#[test]
fn factor_names() {
    assert_eq!(factor_name("lora_llama", Factor::A, 0), "lora_llama.a0.weight");
    assert_eq!(factor_name("lora_llama", Factor::B, 0), "lora_llama.b0.weight");
    assert_eq!(factor_name("lora_llama_csa", Factor::A, 12), "lora_llama_csa.a12.weight");
    assert_eq!(factor_name("", Factor::B, 3), ".b3.weight");
}
