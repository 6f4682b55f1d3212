//! Classification by a table of rules, so that the naming habits of another
//! model family are a matter of data.

use crate::prefix::{classify, CandleLoraPrefix};
use crate::text::{chars_contain, has_infix, to_chars, views_of};
use vstd::prelude::*;

verus! {

/// One rule: the class of a name in which every word of `all_of` occurs
/// and, where `any_of` has words, at least one of them.
pub struct LayerRule {
    pub all_of: Vec<String>,
    pub any_of: Vec<String>,
    pub class: CandleLoraPrefix,
}

/// What a [`LayerRule`] stands for.
pub struct RuleView {
    pub all_of: Seq<Seq<char>>,
    pub any_of: Seq<Seq<char>>,
    pub class: CandleLoraPrefix,
}

impl View for LayerRule {
    type V = RuleView;

    open spec fn view(&self) -> RuleView {
        RuleView {
            all_of: views_of(self.all_of@),
            any_of: views_of(self.any_of@),
            class: self.class,
        }
    }
}

/// The rules in the order in which they are tried, and the class of a name
/// that matches none.
pub struct LayerRules {
    pub rules: Vec<LayerRule>,
    pub fallback: CandleLoraPrefix,
}

/// What a [`LayerRules`] stands for.
pub struct RulesView {
    pub rules: Seq<RuleView>,
    pub fallback: CandleLoraPrefix,
}

impl View for LayerRules {
    type V = RulesView;

    open spec fn view(&self) -> RulesView {
        RulesView {
            rules: Seq::new(self.rules@.len(), |i: int| self.rules@[i]@),
            fallback: self.fallback,
        }
    }
}

/// Every word of `words` occurs in `name`.
pub open spec fn holds_all(name: Seq<char>, words: Seq<Seq<char>>) -> bool {
    forall|i: int| 0 <= i < words.len() ==> has_infix(name, #[trigger] words[i])
}

/// At least one word of `words` occurs in `name`.
pub open spec fn holds_any(name: Seq<char>, words: Seq<Seq<char>>) -> bool {
    exists|i: int| 0 <= i < words.len() && has_infix(name, #[trigger] words[i])
}

/// `rule` matches `name`.
pub open spec fn rule_matches(rule: RuleView, name: Seq<char>) -> bool {
    &&& holds_all(name, rule.all_of)
    &&& rule.any_of.len() == 0 || holds_any(name, rule.any_of)
}

/// The class that the first matching rule at or after position `from`
/// gives to `name`; the fallback where none matches.
pub open spec fn first_match(rules: RulesView, name: Seq<char>, from: int) -> CandleLoraPrefix
    decreases rules.rules.len() - from,
{
    if from < 0 || from >= rules.rules.len() {
        rules.fallback
    } else if rule_matches(rules.rules[from], name) {
        rules.rules[from].class
    } else {
        first_match(rules, name, from + 1)
    }
}

/// The class that `rules` give to `name`: the first rule that matches
/// decides.
pub open spec fn class_of(rules: RulesView, name: Seq<char>) -> CandleLoraPrefix {
    first_match(rules, name, 0)
}

/// The rules for models of the Llama family: a name with `embed_tokens` or
/// `lm_head` is an embedding or a head; else a name with `self_attn` and one
/// of the four projections is an attention projection; every other name
/// belongs to a block.
pub open spec fn llama_rules() -> RulesView {
    RulesView {
        rules: seq![
            RuleView {
                all_of: Seq::empty(),
                any_of: seq!["embed_tokens"@, "lm_head"@],
                class: CandleLoraPrefix::Llama,
            },
            RuleView {
                all_of: seq!["self_attn"@],
                any_of: seq!["q_proj"@, "k_proj"@, "v_proj"@, "o_proj"@],
                class: CandleLoraPrefix::LlamaCsa,
            },
        ],
        fallback: CandleLoraPrefix::LlamaBlock,
    }
}

/// The rules of the Llama family classify as [`classify`] does.
pub proof fn lemma_llama_rules(name: Seq<char>)
    ensures
        class_of(llama_rules(), name) == classify(name),
{
    let rules = llama_rules();
    let head = rules.rules[0];
    let attention = rules.rules[1];
    assert(holds_all(name, head.all_of));
    assert(holds_any(name, head.any_of) == (has_infix(name, "embed_tokens"@) || has_infix(
        name,
        "lm_head"@,
    ))) by {
        assert(head.any_of[0] == "embed_tokens"@);
        assert(head.any_of[1] == "lm_head"@);
    }
    assert(holds_all(name, attention.all_of) == has_infix(name, "self_attn"@)) by {
        assert(attention.all_of[0] == "self_attn"@);
    }
    assert(holds_any(name, attention.any_of) == (has_infix(name, "q_proj"@) || has_infix(
        name,
        "k_proj"@,
    ) || has_infix(name, "v_proj"@) || has_infix(name, "o_proj"@))) by {
        assert(attention.any_of[0] == "q_proj"@);
        assert(attention.any_of[1] == "k_proj"@);
        assert(attention.any_of[2] == "v_proj"@);
        assert(attention.any_of[3] == "o_proj"@);
    }
    assert(first_match(rules, name, 2) == rules.fallback);
    assert(first_match(rules, name, 1) == if rule_matches(attention, name) {
        attention.class
    } else {
        rules.fallback
    });
}

/// Whether every word of `words` occurs in `name`.
fn name_holds_all(name: &Vec<char>, words: &Vec<String>) -> (r: bool)
    ensures
        r == holds_all(name@, views_of(words@)),
{
    let mut i: usize = 0;
    while i < words.len()
        invariant
            i <= words.len(),
            forall|j: int| 0 <= j < i ==> has_infix(name@, #[trigger] views_of(words@)[j]),
        decreases words.len() - i,
    {
        let word = to_chars(words[i].as_str());
        assert(views_of(words@)[i as int] == word@);
        if !chars_contain(name, &word) {
            return false;
        }
        i = i + 1;
    }
    true
}

/// Whether at least one word of `words` occurs in `name`.
fn name_holds_any(name: &Vec<char>, words: &Vec<String>) -> (r: bool)
    ensures
        r == holds_any(name@, views_of(words@)),
{
    let mut i: usize = 0;
    while i < words.len()
        invariant
            i <= words.len(),
            forall|j: int| 0 <= j < i ==> !has_infix(name@, #[trigger] views_of(words@)[j]),
        decreases words.len() - i,
    {
        let word = to_chars(words[i].as_str());
        assert(views_of(words@)[i as int] == word@);
        if chars_contain(name, &word) {
            return true;
        }
        i = i + 1;
    }
    false
}

impl LayerRule {
    /// Whether this rule matches `name`.
    pub fn matches(&self, name: &str) -> (r: bool)
        ensures
            r == rule_matches(self@, name@),
    {
        let chars = to_chars(name);
        name_holds_all(&chars, &self.all_of) && (self.any_of.len() == 0 || name_holds_any(
            &chars,
            &self.any_of,
        ))
    }
}

impl LayerRules {
    /// The rules for models of the Llama family.
    pub fn llama() -> (r: Self)
        ensures
            r@ == llama_rules(),
    {
        let head = LayerRule {
            all_of: Vec::new(),
            any_of: vec!["embed_tokens".to_owned(), "lm_head".to_owned()],
            class: CandleLoraPrefix::Llama,
        };
        let attention = LayerRule {
            all_of: vec!["self_attn".to_owned()],
            any_of: vec![
                "q_proj".to_owned(),
                "k_proj".to_owned(),
                "v_proj".to_owned(),
                "o_proj".to_owned(),
            ],
            class: CandleLoraPrefix::LlamaCsa,
        };
        assert(head@.all_of =~= Seq::<Seq<char>>::empty());
        assert(head@.any_of =~= seq!["embed_tokens"@, "lm_head"@]);
        assert(attention@.all_of =~= seq!["self_attn"@]);
        assert(attention@.any_of =~= seq!["q_proj"@, "k_proj"@, "v_proj"@, "o_proj"@]);
        let r = LayerRules { rules: vec![head, attention], fallback: CandleLoraPrefix::LlamaBlock };
        assert(r@.rules =~= llama_rules().rules);
        r
    }

    /// The class of the layer called `name`.
    pub fn classify(&self, name: &str) -> (r: CandleLoraPrefix)
        ensures
            r == class_of(self@, name@),
    {
        let mut i: usize = 0;
        while i < self.rules.len()
            invariant
                i <= self.rules.len(),
                class_of(self@, name@) == first_match(self@, name@, i as int),
            decreases self.rules.len() - i,
        {
            assert(self@.rules[i as int] == self.rules[i as int]@);
            if self.rules[i].matches(name) {
                return self.rules[i].class;
            }
            i = i + 1;
        }
        self.fallback
    }
}

} // verus!
