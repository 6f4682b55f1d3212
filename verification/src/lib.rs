//! Renaming of low-rank adapter tensors from module-path keys to
//! positionally indexed keys grouped by layer class.
//!
//! A checkpoint stores each adapter as two factors under
//! `<layer>.lora_A.weight` and `<layer>.lora_B.weight`. The conversion keeps
//! the adapters that are stored in full, orders them by layer name, and
//! stores their factors under `<prefix>.a<index>.weight` and
//! `<prefix>.b<index>.weight`, either all under one prefix or each under the
//! prefix of its layer's class. Tensors are carried over untouched.
//!
//! - [`table`]: the mapping from names to tensors that goes in and comes out.
//! - [`pairs`]: which adapters a table holds, and in what order.
//! - [`prefix`]: the layer classes and the rule that assigns them.
//! - [`rules`]: classification by a table of rules.
//! - [`rename`]: the new names and the two ways of numbering.
//! - [`dummy`]: the sizes of the placeholder for a missing embedding adapter.
//! - [`convert`]: the conversions from end to end.
//! - [`laws`]: what holds of every conversion.
//! - [`text`]: tests and orders on names as character sequences.
//! - [`tensor`]: what is taken on trust of the tensor values.

pub mod convert;
pub mod dummy;
pub mod laws;
pub mod pairs;
pub mod prefix;
pub mod rename;
pub mod rules;
pub mod table;
pub mod tensor;
pub mod text;

pub use convert::{
    convert_peft_to_candle_lora, convert_peft_to_candle_lora_typed,
    convert_peft_to_candle_lora_typed_with_rules, select_adapter_file, ConvertError,
};
pub use dummy::DummyShape;
pub use pairs::{extract_pairs, AdapterPair};
pub use prefix::CandleLoraPrefix;
pub use rename::{rename_pairs, rename_pairs_typed, Factor};
pub use rules::{LayerRule, LayerRules};
pub use table::NamedTensors;
