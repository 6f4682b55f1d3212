//! The renamer: new names for the factors of each pair, numbered from zero.

use crate::pairs::{pair_views, AdapterPair, PairView};
use crate::prefix::CandleLoraPrefix;
use crate::rules::{class_of, LayerRules, RulesView};
use crate::table::NamedTensors;
use crate::tensor::clone_tensor;
use crate::text::{decimal, decimal_digits, lemma_decimal_injective, lemma_decimal_value};
use candle_core::Tensor;
use vstd::prelude::*;
use vstd::string::StringExecFns;

verus! {

/// Which of the two factors of an adapter.
#[derive(Debug, Clone, Copy, PartialEq, Eq, Structural)]
pub enum Factor {
    A,
    B,
}

impl Factor {
    /// The letter that stands for this factor in a name.
    pub open spec fn letter(self) -> char {
        match self {
            Factor::A => 'a',
            Factor::B => 'b',
        }
    }
}

/// The new name of a factor: the prefix, a dot, the factor's letter, the
/// index in decimal, and `.weight`.
pub open spec fn factor_key(prefix: Seq<char>, factor: Factor, index: nat) -> Seq<char> {
    prefix + seq!['.', factor.letter()] + decimal_digits(index) + ".weight"@
}

/// The new name of a factor.
pub fn factor_name(prefix: &str, factor: Factor, index: usize) -> (r: String)
    ensures
        r@ == factor_key(prefix@, factor, index as nat),
{
    proof {
        reveal_strlit(".a");
        reveal_strlit(".b");
    }
    let mut r = prefix.to_owned();
    match factor {
        Factor::A => {
            r.append(".a");
            assert(".a"@ =~= seq!['.', 'a']);
        },
        Factor::B => {
            r.append(".b");
            assert(".b"@ =~= seq!['.', 'b']);
        },
    }
    let digits = decimal(index);
    r.append(digits.as_str());
    r.append(".weight");
    r
}

/// The parts of a name, by position: the prefix comes first, then the dot,
/// the letter, the digits, and the ending.
proof fn lemma_factor_key_parts(prefix: Seq<char>, factor: Factor, index: nat)
    ensures
        factor_key(prefix, factor, index).len() == prefix.len() + 2 + decimal_digits(index).len()
            + 7,
        forall|i: int| 0 <= i < prefix.len() ==> factor_key(prefix, factor, index)[i] == prefix[i],
        factor_key(prefix, factor, index)[prefix.len() as int] == '.',
        factor_key(prefix, factor, index)[prefix.len() as int + 1] == factor.letter(),
        forall|i: int|
            0 <= i < decimal_digits(index).len() ==> factor_key(prefix, factor, index)[prefix.len()
                + 2 + i] == decimal_digits(index)[i],
{
    reveal_strlit(".weight");
    let head = prefix + seq!['.', factor.letter()];
    let mid = head + decimal_digits(index);
    let key = mid + ".weight"@;
    assert(head.len() == prefix.len() + 2);
    assert(mid.len() == head.len() + decimal_digits(index).len());
    assert(key.len() == mid.len() + 7);
    assert forall|i: int| 0 <= i < prefix.len() implies key[i] == prefix[i] by {
        assert(head[i] == prefix[i]);
        assert(mid[i] == head[i]);
    }
    assert(head[prefix.len() as int] == '.');
    assert(mid[prefix.len() as int] == '.');
    assert(head[prefix.len() as int + 1] == factor.letter());
    assert(mid[prefix.len() as int + 1] == factor.letter());
    assert forall|i: int| 0 <= i < decimal_digits(index).len() implies key[prefix.len() + 2 + i]
        == decimal_digits(index)[i] by {
        assert(mid[prefix.len() + 2 + i] == decimal_digits(index)[i]);
    }
}

/// Under one prefix, a name belongs to one factor and one index only.
pub proof fn lemma_factor_key_injective(
    prefix: Seq<char>,
    f1: Factor,
    i1: nat,
    f2: Factor,
    i2: nat,
)
    requires
        factor_key(prefix, f1, i1) == factor_key(prefix, f2, i2),
    ensures
        f1 == f2,
        i1 == i2,
{
    lemma_factor_key_parts(prefix, f1, i1);
    lemma_factor_key_parts(prefix, f2, i2);
    let d1 = decimal_digits(i1);
    let d2 = decimal_digits(i2);
    assert(d1.len() == d2.len());
    assert forall|i: int| 0 <= i < d1.len() implies d1[i] == d2[i] by {
        assert(factor_key(prefix, f1, i1)[prefix.len() + 2 + i] == d1[i]);
        assert(factor_key(prefix, f2, i2)[prefix.len() + 2 + i] == d2[i]);
    }
    assert(d1 =~= d2);
    lemma_decimal_injective(i1, i2);
}

/// A name belongs to one layer class only.
pub proof fn lemma_class_of_key(
    c1: CandleLoraPrefix,
    f1: Factor,
    i1: nat,
    c2: CandleLoraPrefix,
    f2: Factor,
    i2: nat,
)
    requires
        factor_key(c1.text(), f1, i1) == factor_key(c2.text(), f2, i2),
    ensures
        c1 == c2,
        f1 == f2,
        i1 == i2,
{
    reveal_strlit("lora_llama");
    reveal_strlit("lora_llama_csa");
    reveal_strlit("lora_llama_block");
    lemma_factor_key_parts(c1.text(), f1, i1);
    lemma_factor_key_parts(c2.text(), f2, i2);
    lemma_decimal_value(i1);
    lemma_decimal_value(i2);
    let k1 = factor_key(c1.text(), f1, i1);
    let k2 = factor_key(c2.text(), f2, i2);
    if c1 != c2 {
        // the eleventh character tells the first class from the others, the
        // twelfth the second from the third
        assert(k1[10] == k2[10]);
        assert(k1[11] == k2[11]);
        assert(k1[10] == if c1 == CandleLoraPrefix::Llama {
            '.'
        } else {
            '_'
        });
        assert(k2[10] == if c2 == CandleLoraPrefix::Llama {
            '.'
        } else {
            '_'
        });
        assert(c1 != CandleLoraPrefix::Llama && c2 != CandleLoraPrefix::Llama);
        assert(k1[11] == if c1 == CandleLoraPrefix::LlamaCsa {
            'c'
        } else {
            'b'
        });
        assert(k2[11] == if c2 == CandleLoraPrefix::LlamaCsa {
            'c'
        } else {
            'b'
        });
        assert(false);
    }
    lemma_factor_key_injective(c1.text(), f1, i1, f2, i2);
}

/// `out` holds, for each of the first `n` pairs, its two factors under the
/// names that `key` gives them, and nothing else.
pub open spec fn is_placement(
    out: Map<Seq<char>, Tensor>,
    pairs: Seq<PairView>,
    n: int,
    key: spec_fn(int, Factor) -> Seq<char>,
) -> bool {
    &&& forall|k: Seq<char>|
        out.contains_key(k) <==> exists|i: int, f: Factor| 0 <= i < n && k == #[trigger] key(i, f)
    &&& forall|i: int|
        0 <= i < n ==> out[key(i, Factor::A)] == (#[trigger] pairs[i]).a && out[key(i, Factor::B)]
            == pairs[i].b
}

/// `key` gives no name twice among the first `n` pairs.
pub open spec fn keys_distinct(key: spec_fn(int, Factor) -> Seq<char>, n: int) -> bool {
    forall|i: int, f: Factor, j: int, g: Factor|
        0 <= i < n && 0 <= j < n && #[trigger] key(i, f) == #[trigger] key(j, g) ==> i == j && f
            == g
}

/// The names of the untyped mode: every pair under the one prefix, numbered
/// by its position.
pub open spec fn untyped_keys(prefix: Seq<char>) -> spec_fn(int, Factor) -> Seq<char> {
    |i: int, f: Factor| factor_key(prefix, f, i as nat)
}

/// How many of the first `n` pairs belong to `class` by `rules`.
pub open spec fn class_count(
    pairs: Seq<PairView>,
    rules: RulesView,
    class: CandleLoraPrefix,
    n: int,
) -> nat
    decreases n,
{
    if n <= 0 {
        0
    } else {
        class_count(pairs, rules, class, n - 1) + if class_of(rules, pairs[n - 1].base) == class {
            1nat
        } else {
            0nat
        }
    }
}

/// The names of the typed mode: every pair under the prefix of the class
/// that `rules` give it, numbered by how many pairs of that class come
/// before it.
pub open spec fn typed_keys(
    pairs: Seq<PairView>,
    rules: RulesView,
) -> spec_fn(int, Factor) -> Seq<char> {
    |i: int, f: Factor|
        factor_key(
            class_of(rules, pairs[i].base).text(),
            f,
            class_count(pairs, rules, class_of(rules, pairs[i].base), i),
        )
}

/// `out` is the untyped renaming of `pairs` under `prefix`: the factors of
/// the pair at position `i` stand under `{prefix}.a{i}.weight` and
/// `{prefix}.b{i}.weight`, and `out` holds nothing else.
pub open spec fn is_untyped_output(
    out: Map<Seq<char>, Tensor>,
    pairs: Seq<PairView>,
    prefix: Seq<char>,
) -> bool {
    is_placement(out, pairs, pairs.len() as int, untyped_keys(prefix))
}

/// `out` is the typed renaming of `pairs` by `rules`: the factors of each
/// pair stand under the prefix of the pair's class and the number of pairs
/// of that class before it, and `out` holds nothing else.
pub open spec fn is_typed_output(
    out: Map<Seq<char>, Tensor>,
    pairs: Seq<PairView>,
    rules: RulesView,
) -> bool {
    is_placement(out, pairs, pairs.len() as int, typed_keys(pairs, rules))
}

/// The count of a class never falls as more pairs are counted, and rises
/// past a pair of the class.
pub proof fn lemma_class_count_grows(
    pairs: Seq<PairView>,
    rules: RulesView,
    class: CandleLoraPrefix,
    i: int,
    j: int,
)
    requires
        0 <= i <= j,
    ensures
        class_count(pairs, rules, class, i) <= class_count(pairs, rules, class, j),
        class_count(pairs, rules, class, j) <= class_count(pairs, rules, class, i) + (j - i),
        i < j && class_of(rules, pairs[i].base) == class ==> class_count(pairs, rules, class, i)
            < class_count(pairs, rules, class, j),
    decreases j - i,
{
    if i < j {
        lemma_class_count_grows(pairs, rules, class, i, j - 1);
    }
}

/// The untyped mode gives no name twice.
pub proof fn lemma_untyped_keys_distinct(prefix: Seq<char>, n: int)
    ensures
        keys_distinct(untyped_keys(prefix), n),
{
    let key = untyped_keys(prefix);
    assert forall|i: int, f: Factor, j: int, g: Factor|
        0 <= i < n && 0 <= j < n && #[trigger] key(i, f) == #[trigger] key(j, g) implies i == j
        && f == g by {
        lemma_factor_key_injective(prefix, f, i as nat, g, j as nat);
    }
}

/// The typed mode gives no name twice.
pub proof fn lemma_typed_keys_distinct(pairs: Seq<PairView>, rules: RulesView, n: int)
    ensures
        keys_distinct(typed_keys(pairs, rules), n),
{
    let key = typed_keys(pairs, rules);
    assert forall|i: int, f: Factor, j: int, g: Factor|
        0 <= i < n && 0 <= j < n && #[trigger] key(i, f) == #[trigger] key(j, g) implies i == j
        && f == g by {
        let ci = class_of(rules, pairs[i].base);
        let cj = class_of(rules, pairs[j].base);
        lemma_class_of_key(
            ci,
            f,
            class_count(pairs, rules, ci, i),
            cj,
            g,
            class_count(pairs, rules, cj, j),
        );
        if i < j {
            lemma_class_count_grows(pairs, rules, ci, i, j);
        } else if j < i {
            lemma_class_count_grows(pairs, rules, ci, j, i);
        }
    }
}

/// Placing one more pair: the table grows by the pair's two names.
pub proof fn lemma_place_next(
    out: Map<Seq<char>, Tensor>,
    pairs: Seq<PairView>,
    n: int,
    key: spec_fn(int, Factor) -> Seq<char>,
)
    requires
        0 <= n < pairs.len(),
        is_placement(out, pairs, n, key),
        keys_distinct(key, n + 1),
    ensures
        is_placement(
            out.insert(key(n, Factor::A), pairs[n].a).insert(key(n, Factor::B), pairs[n].b),
            pairs,
            n + 1,
            key,
        ),
{
    let ka = key(n, Factor::A);
    let kb = key(n, Factor::B);
    let next = out.insert(ka, pairs[n].a).insert(kb, pairs[n].b);
    assert forall|k: Seq<char>| next.contains_key(k) <==> exists|i: int, f: Factor|
        0 <= i < n + 1 && k == #[trigger] key(i, f) by {
        if next.contains_key(k) {
            if k == ka {
                assert(k == key(n, Factor::A));
            } else if k == kb {
                assert(k == key(n, Factor::B));
            } else {
                assert(out.contains_key(k));
                let (i, f) = choose|i: int, f: Factor| 0 <= i < n && k == #[trigger] key(i, f);
                assert(0 <= i < n + 1 && k == key(i, f));
            }
        }
        if exists|i: int, f: Factor| 0 <= i < n + 1 && k == #[trigger] key(i, f) {
            let (i, f) = choose|i: int, f: Factor| 0 <= i < n + 1 && k == #[trigger] key(i, f);
            if i < n {
                assert(0 <= i < n && k == key(i, f));
                assert(out.contains_key(k));
            } else {
                assert(f == Factor::A || f == Factor::B);
            }
        }
    }
    assert forall|i: int| 0 <= i < n + 1 implies next[key(i, Factor::A)] == (#[trigger] pairs[i]).a
        && next[key(i, Factor::B)] == pairs[i].b by {
        assert(key(n, Factor::A) != key(n, Factor::B));
        if i < n {
            assert(key(i, Factor::A) != key(n, Factor::A));
            assert(key(i, Factor::A) != key(n, Factor::B));
            assert(key(i, Factor::B) != key(n, Factor::A));
            assert(key(i, Factor::B) != key(n, Factor::B));
        }
    }
}

/// Only one table is the placement of given pairs under given names.
pub proof fn lemma_placement_unique(
    out1: Map<Seq<char>, Tensor>,
    out2: Map<Seq<char>, Tensor>,
    pairs: Seq<PairView>,
    n: int,
    key: spec_fn(int, Factor) -> Seq<char>,
)
    requires
        is_placement(out1, pairs, n, key),
        is_placement(out2, pairs, n, key),
    ensures
        out1 == out2,
{
    assert forall|k: Seq<char>| out1.contains_key(k) implies out1[k] == out2[k] by {
        let (i, f) = choose|i: int, f: Factor| 0 <= i < n && k == #[trigger] key(i, f);
        assert(out1[key(i, Factor::A)] == pairs[i].a);
        assert(out2[key(i, Factor::A)] == pairs[i].a);
        assert(f == Factor::A || f == Factor::B);
    }
    assert(out1 =~= out2);
}

/// The untyped renamer: the pair at position `i` goes under
/// `{prefix}.a{i}.weight` and `{prefix}.b{i}.weight`.
pub fn rename_pairs(pairs: &Vec<AdapterPair>, prefix: &str) -> (out: NamedTensors)
    ensures
        is_untyped_output(out@, pair_views(pairs@), prefix@),
{
    let ghost pv = pair_views(pairs@);
    let ghost key = untyped_keys(prefix@);
    let mut out = NamedTensors::new();
    let mut i: usize = 0;
    while i < pairs.len()
        invariant
            i <= pairs.len(),
            pv == pair_views(pairs@),
            key == untyped_keys(prefix@),
            is_placement(out@, pv, i as int, key),
        decreases pairs.len() - i,
    {
        let ghost before = out@;
        let a_name = factor_name(prefix, Factor::A, i);
        let b_name = factor_name(prefix, Factor::B, i);
        out.insert(a_name, clone_tensor(&pairs[i].factor_a));
        out.insert(b_name, clone_tensor(&pairs[i].factor_b));
        proof {
            lemma_untyped_keys_distinct(prefix@, i + 1);
            lemma_place_next(before, pv, i as int, key);
            assert(pv[i as int] == pairs[i as int]@);
        }
        i = i + 1;
    }
    out
}

/// How many of `pairs` belong to `class` by `rules`.
pub fn count_class(
    pairs: &Vec<AdapterPair>,
    rules: &LayerRules,
    class: CandleLoraPrefix,
) -> (r: usize)
    ensures
        r == class_count(pair_views(pairs@), rules@, class, pairs.len() as int),
{
    let ghost pv = pair_views(pairs@);
    let mut r: usize = 0;
    let mut i: usize = 0;
    while i < pairs.len()
        invariant
            i <= pairs.len(),
            pv == pair_views(pairs@),
            r == class_count(pv, rules@, class, i as int),
            r <= i,
        decreases pairs.len() - i,
    {
        assert(pv[i as int] == pairs[i as int]@);
        if rules.classify(pairs[i].base_name.as_str()) == class {
            r = r + 1;
        }
        i = i + 1;
    }
    r
}

/// The typed renamer: each pair goes under the prefix of the class that
/// `rules` give its layer, and each class numbers its pairs from zero in the
/// order in which they come. A class without pairs takes no index from
/// another.
pub fn rename_pairs_typed(pairs: &Vec<AdapterPair>, rules: &LayerRules) -> (out: NamedTensors)
    ensures
        is_typed_output(out@, pair_views(pairs@), rules@),
{
    let ghost pv = pair_views(pairs@);
    let ghost key = typed_keys(pv, rules@);
    let mut out = NamedTensors::new();
    let mut llama: usize = 0;
    let mut csa: usize = 0;
    let mut block: usize = 0;
    let mut i: usize = 0;
    while i < pairs.len()
        invariant
            i <= pairs.len(),
            pv == pair_views(pairs@),
            key == typed_keys(pv, rules@),
            is_placement(out@, pv, i as int, key),
            llama == class_count(pv, rules@, CandleLoraPrefix::Llama, i as int),
            csa == class_count(pv, rules@, CandleLoraPrefix::LlamaCsa, i as int),
            block == class_count(pv, rules@, CandleLoraPrefix::LlamaBlock, i as int),
            llama <= i,
            csa <= i,
            block <= i,
        decreases pairs.len() - i,
    {
        let ghost before = out@;
        assert(pv[i as int] == pairs[i as int]@);
        let class = rules.classify(pairs[i].base_name.as_str());
        let index: usize = match class {
            CandleLoraPrefix::Llama => llama,
            CandleLoraPrefix::LlamaCsa => csa,
            CandleLoraPrefix::LlamaBlock => block,
        };
        let a_name = factor_name(class.as_str(), Factor::A, index);
        let b_name = factor_name(class.as_str(), Factor::B, index);
        out.insert(a_name, clone_tensor(&pairs[i].factor_a));
        out.insert(b_name, clone_tensor(&pairs[i].factor_b));
        proof {
            lemma_typed_keys_distinct(pv, rules@, i + 1);
            lemma_place_next(before, pv, i as int, key);
        }
        match class {
            CandleLoraPrefix::Llama => {
                llama = llama + 1;
            },
            CandleLoraPrefix::LlamaCsa => {
                csa = csa + 1;
            },
            CandleLoraPrefix::LlamaBlock => {
                block = block + 1;
            },
        }
        i = i + 1;
    }
    out
}

} // verus!
