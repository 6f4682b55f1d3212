//! What holds of every conversion: how many pairs come out, that the result
//! depends on the table alone, that unmatched tensors change nothing, and
//! how the classes number their pairs.

use crate::convert::needs_dummy;
use crate::pairs::{
    extraction, factor_a_key, factor_b_key, has_base, is_extraction, is_matched,
    lemma_append_injective, lemma_extraction_unique, lemma_factor_keys_differ,
    lemma_insert_has_base, lemma_insert_keeps, lemma_insert_keeps_order, matched_bases,
    pair_matches, sorted_by_base, PairView,
};
use crate::prefix::{classify, CandleLoraPrefix};
use crate::rules::{class_of, lemma_llama_rules, llama_rules, RulesView};
use crate::rename::{
    class_count, is_placement, is_typed_output, is_untyped_output, keys_distinct,
    lemma_class_count_grows, lemma_placement_unique, lemma_typed_keys_distinct,
    lemma_untyped_keys_distinct, typed_keys, untyped_keys, Factor,
};
use crate::text::{lemma_lex_lt_irreflexive, lex_lt};
use candle_core::Tensor;
use vstd::prelude::*;

verus! {

/// The layers of `pairs`, in order.
pub open spec fn bases_of(pairs: Seq<PairView>) -> Seq<Seq<char>> {
    Seq::new(pairs.len(), |i: int| pairs[i].base)
}

/// An extraction names no layer twice.
pub proof fn lemma_bases_distinct(pairs: Seq<PairView>)
    requires
        sorted_by_base(pairs),
    ensures
        bases_of(pairs).no_duplicates(),
{
    let bases = bases_of(pairs);
    assert forall|i: int, j: int| 0 <= i < bases.len() && 0 <= j < bases.len() && i != j implies
        bases[i] != bases[j] by {
        if i < j {
            assert(lex_lt(pairs[i].base, pairs[j].base));
        } else {
            assert(lex_lt(pairs[j].base, pairs[i].base));
        }
        lemma_lex_lt_irreflexive(bases[i]);
    }
}

/// As many pairs are extracted as the table holds layers in full.
pub proof fn lemma_pair_count(m: Map<Seq<char>, Tensor>, pairs: Seq<PairView>)
    requires
        is_extraction(m, pairs),
    ensures
        matched_bases(m).finite(),
        pairs.len() == matched_bases(m).len(),
{
    let bases = bases_of(pairs);
    lemma_bases_distinct(pairs);
    bases.unique_seq_to_set();
    vstd::seq_lib::seq_to_set_is_finite(bases);
    assert forall|base: Seq<char>| bases.to_set().contains(base) <==> matched_bases(m).contains(
        base,
    ) by {
        if bases.to_set().contains(base) {
            let i = choose|i: int| 0 <= i < bases.len() && bases[i] == base;
            assert(pair_matches(m, pairs[i]));
        }
        if matched_bases(m).contains(base) {
            assert(is_matched(m, base));
            assert(has_base(pairs, base));
            let i = choose|i: int| 0 <= i < pairs.len() && #[trigger] pairs[i].base == base;
            assert(bases[i] == base);
        }
    }
    assert(bases.to_set() =~= matched_bases(m));
}

/// The factors of the extracted pairs are tensors of the table, each its
/// own: the pairs are at most half as many as the tensors.
pub proof fn lemma_pairs_within_source(m: Map<Seq<char>, Tensor>, pairs: Seq<PairView>)
    requires
        is_extraction(m, pairs),
        m.dom().finite(),
    ensures
        2 * pairs.len() <= m.dom().len(),
{
    let n = pairs.len() as int;
    let keys = Seq::new(
        (2 * n) as nat,
        |j: int|
            if j < n {
                factor_a_key(pairs[j].base)
            } else {
                factor_b_key(pairs[j - n].base)
            },
    );
    lemma_bases_distinct(pairs);
    assert forall|i: int, j: int| 0 <= i < keys.len() && 0 <= j < keys.len() && i != j implies
        keys[i] != keys[j] by {
        let bi = if i < n {
            i
        } else {
            i - n
        };
        let bj = if j < n {
            j
        } else {
            j - n
        };
        if keys[i] == keys[j] {
            if i < n && j < n {
                lemma_append_injective(pairs[bi].base, pairs[bj].base, ".lora_A.weight"@);
            } else if i >= n && j >= n {
                lemma_append_injective(pairs[bi].base, pairs[bj].base, ".lora_B.weight"@);
            } else if i < n {
                lemma_factor_keys_differ(pairs[bi].base, pairs[bj].base);
            } else {
                lemma_factor_keys_differ(pairs[bj].base, pairs[bi].base);
            }
            assert(bases_of(pairs)[bi] == bases_of(pairs)[bj]);
        }
    }
    keys.unique_seq_to_set();
    assert(keys.to_set().subset_of(m.dom())) by {
        assert forall|k: Seq<char>| keys.to_set().contains(k) implies m.dom().contains(k) by {
            let j = choose|j: int| 0 <= j < keys.len() && keys[j] == k;
            if j < n {
                assert(pair_matches(m, pairs[j]));
            } else {
                assert(pair_matches(m, pairs[j - n]));
            }
        }
    }
    vstd::set_lib::lemma_len_subset(keys.to_set(), m.dom());
}

/// A placement under names that do not collide holds two tensors for each
/// pair.
pub proof fn lemma_placement_count(
    out: Map<Seq<char>, Tensor>,
    pairs: Seq<PairView>,
    n: int,
    key: spec_fn(int, Factor) -> Seq<char>,
)
    requires
        0 <= n,
        is_placement(out, pairs, n, key),
        keys_distinct(key, n),
    ensures
        out.dom().finite(),
        out.dom().len() == 2 * n,
{
    let keys = Seq::new(
        (2 * n) as nat,
        |j: int|
            if j < n {
                key(j, Factor::A)
            } else {
                key(j - n, Factor::B)
            },
    );
    assert forall|i: int, j: int| 0 <= i < keys.len() && 0 <= j < keys.len() && i != j implies
        keys[i] != keys[j] by {
        let bi = if i < n {
            i
        } else {
            i - n
        };
        let fi = if i < n {
            Factor::A
        } else {
            Factor::B
        };
        let bj = if j < n {
            j
        } else {
            j - n
        };
        let fj = if j < n {
            Factor::A
        } else {
            Factor::B
        };
        assert(keys[i] == key(bi, fi));
        assert(keys[j] == key(bj, fj));
    }
    keys.unique_seq_to_set();
    vstd::seq_lib::seq_to_set_is_finite(keys);
    assert forall|k: Seq<char>| keys.to_set().contains(k) <==> out.dom().contains(k) by {
        if keys.to_set().contains(k) {
            let j = choose|j: int| 0 <= j < keys.len() && keys[j] == k;
            if j < n {
                assert(k == key(j, Factor::A));
            } else {
                assert(k == key(j - n, Factor::B));
            }
        }
        if out.dom().contains(k) {
            let (i, f) = choose|i: int, f: Factor| 0 <= i < n && k == #[trigger] key(i, f);
            if f == Factor::A {
                assert(keys[i] == k);
            } else {
                assert(keys[i + n] == k);
            }
        }
    }
    assert(keys.to_set() =~= out.dom());
}

/// The untyped conversion emits one pair of tensors for each layer that the
/// table holds in full.
pub proof fn lemma_untyped_count(
    m: Map<Seq<char>, Tensor>,
    pairs: Seq<PairView>,
    prefix: Seq<char>,
    out: Map<Seq<char>, Tensor>,
)
    requires
        is_extraction(m, pairs),
        is_untyped_output(out, pairs, prefix),
    ensures
        out.dom().finite(),
        matched_bases(m).finite(),
        out.dom().len() == 2 * matched_bases(m).len(),
{
    lemma_pair_count(m, pairs);
    lemma_untyped_keys_distinct(prefix, pairs.len() as int);
    lemma_placement_count(out, pairs, pairs.len() as int, untyped_keys(prefix));
}

/// The typed conversion, where it adds no placeholder, emits one pair of
/// tensors for each layer that the table holds in full.
pub proof fn lemma_typed_count(
    m: Map<Seq<char>, Tensor>,
    pairs: Seq<PairView>,
    rules: RulesView,
    out: Map<Seq<char>, Tensor>,
)
    requires
        is_extraction(m, pairs),
        is_typed_output(out, pairs, rules),
    ensures
        out.dom().finite(),
        matched_bases(m).finite(),
        out.dom().len() == 2 * matched_bases(m).len(),
{
    lemma_pair_count(m, pairs);
    lemma_typed_keys_distinct(pairs, rules, pairs.len() as int);
    lemma_placement_count(out, pairs, pairs.len() as int, typed_keys(pairs, rules));
}

/// What is extracted from a table is [`extraction`] of it: the order of the
/// pairs is that of their layers' names and owes nothing to the order in
/// which the table was filled or is walked.
pub proof fn lemma_extraction_is_determined(m: Map<Seq<char>, Tensor>, pairs: Seq<PairView>)
    requires
        is_extraction(m, pairs),
    ensures
        pairs == extraction(m),
        sorted_by_base(extraction(m)),
{
    lemma_extraction_unique(m, pairs, extraction(m));
}

/// Two untyped conversions of one table under one prefix give the same
/// names with the same tensors.
pub proof fn lemma_untyped_deterministic(
    m: Map<Seq<char>, Tensor>,
    prefix: Seq<char>,
    pairs1: Seq<PairView>,
    out1: Map<Seq<char>, Tensor>,
    pairs2: Seq<PairView>,
    out2: Map<Seq<char>, Tensor>,
)
    requires
        is_extraction(m, pairs1),
        is_untyped_output(out1, pairs1, prefix),
        is_extraction(m, pairs2),
        is_untyped_output(out2, pairs2, prefix),
    ensures
        out1 == out2,
{
    lemma_extraction_unique(m, pairs1, pairs2);
    lemma_placement_unique(out1, out2, pairs1, pairs1.len() as int, untyped_keys(prefix));
}

/// Two typed conversions of one table by the same rules give the same
/// names with the same tensors.
pub proof fn lemma_typed_deterministic(
    m: Map<Seq<char>, Tensor>,
    rules: RulesView,
    pairs1: Seq<PairView>,
    out1: Map<Seq<char>, Tensor>,
    pairs2: Seq<PairView>,
    out2: Map<Seq<char>, Tensor>,
)
    requires
        is_extraction(m, pairs1),
        is_typed_output(out1, pairs1, rules),
        is_extraction(m, pairs2),
        is_typed_output(out2, pairs2, rules),
    ensures
        out1 == out2,
{
    lemma_extraction_unique(m, pairs1, pairs2);
    lemma_placement_unique(out1, out2, pairs1, pairs1.len() as int, typed_keys(pairs1, rules));
}

/// `key` names a tensor of `m` that is no factor of a layer held in full: a
/// first factor without its second, a second without its first, or a tensor
/// that is no factor at all.
pub open spec fn is_unmatched(m: Map<Seq<char>, Tensor>, key: Seq<char>) -> bool {
    &&& m.contains_key(key)
    &&& forall|base: Seq<char>| #[trigger]
        is_matched(m, base) ==> key != factor_a_key(base) && key != factor_b_key(base)
}

/// A first factor whose second is missing is unmatched.
pub proof fn lemma_lone_first_factor(m: Map<Seq<char>, Tensor>, base: Seq<char>)
    requires
        m.contains_key(factor_a_key(base)),
        !m.contains_key(factor_b_key(base)),
    ensures
        is_unmatched(m, factor_a_key(base)),
{
    assert forall|other: Seq<char>| #[trigger] is_matched(m, other) implies factor_a_key(base)
        != factor_a_key(other) && factor_a_key(base) != factor_b_key(other) by {
        if factor_a_key(base) == factor_a_key(other) {
            lemma_append_injective(base, other, ".lora_A.weight"@);
        }
        lemma_factor_keys_differ(base, other);
    }
}

/// A second factor whose first is missing is unmatched.
pub proof fn lemma_lone_second_factor(m: Map<Seq<char>, Tensor>, base: Seq<char>)
    requires
        m.contains_key(factor_b_key(base)),
        !m.contains_key(factor_a_key(base)),
    ensures
        is_unmatched(m, factor_b_key(base)),
{
    assert forall|other: Seq<char>| #[trigger] is_matched(m, other) implies factor_b_key(base)
        != factor_a_key(other) && factor_b_key(base) != factor_b_key(other) by {
        if factor_b_key(base) == factor_b_key(other) {
            lemma_append_injective(base, other, ".lora_B.weight"@);
        }
        lemma_factor_keys_differ(other, base);
    }
}

/// An unmatched tensor changes nothing: the table without it has the same
/// pairs, so no index moves and nothing of it reaches the output.
pub proof fn lemma_unmatched_is_ignored(
    m: Map<Seq<char>, Tensor>,
    pairs: Seq<PairView>,
    key: Seq<char>,
)
    requires
        is_extraction(m, pairs),
        is_unmatched(m, key),
    ensures
        is_extraction(m.remove(key), pairs),
{
    let rest = m.remove(key);
    assert forall|i: int| 0 <= i < pairs.len() implies pair_matches(rest, #[trigger] pairs[i]) by {
        assert(pair_matches(m, pairs[i]));
        assert(is_matched(m, pairs[i].base));
    }
    assert forall|base: Seq<char>| #[trigger] is_matched(rest, base) implies has_base(
        pairs,
        base,
    ) by {
        assert(is_matched(m, base));
    }
}

/// An unmatched tensor added to a table leaves its pairs as they were.
pub proof fn lemma_unmatched_adds_nothing(
    m: Map<Seq<char>, Tensor>,
    pairs: Seq<PairView>,
    key: Seq<char>,
)
    requires
        is_unmatched(m, key),
        is_extraction(m.remove(key), pairs),
    ensures
        is_extraction(m, pairs),
{
    let rest = m.remove(key);
    assert forall|i: int| 0 <= i < pairs.len() implies pair_matches(m, #[trigger] pairs[i]) by {
        assert(pair_matches(rest, pairs[i]));
    }
    assert forall|base: Seq<char>| #[trigger] is_matched(m, base) implies has_base(pairs, base) by {
        assert(is_matched(rest, base));
    }
}

/// Where the names of `pairs` stop being smaller than `base`, searched from
/// `from`.
proof fn lemma_insert_point(pairs: Seq<PairView>, base: Seq<char>, from: int) -> (at: int)
    requires
        0 <= from <= pairs.len(),
        forall|i: int| 0 <= i < from ==> lex_lt(#[trigger] pairs[i].base, base),
    ensures
        from <= at <= pairs.len(),
        forall|i: int| 0 <= i < at ==> lex_lt(#[trigger] pairs[i].base, base),
        at == pairs.len() || !lex_lt(pairs[at].base, base),
    decreases pairs.len() - from,
{
    if from == pairs.len() || !lex_lt(pairs[from].base, base) {
        from
    } else {
        lemma_insert_point(pairs, base, from + 1)
    }
}

/// Every finite table has an extraction, so [`extraction`] of it is one.
pub proof fn lemma_extraction_exists(m: Map<Seq<char>, Tensor>)
    requires
        m.dom().finite(),
    ensures
        is_extraction(m, extraction(m)),
    decreases m.dom().len(),
{
    if m.dom().len() == 0 {
        let none = Seq::<PairView>::empty();
        assert forall|base: Seq<char>| #[trigger] is_matched(m, base) implies has_base(
            none,
            base,
        ) by {
            assert(m.dom().contains(factor_a_key(base)));
            assert(m.dom() =~= Set::<Seq<char>>::empty());
        }
        assert(is_extraction(m, none));
    } else {
        let key = m.dom().choose();
        let rest = m.remove(key);
        assert(rest.dom() =~= m.dom().remove(key));
        lemma_extraction_exists(rest);
        let pairs = extraction(rest);
        if is_unmatched(m, key) {
            lemma_unmatched_adds_nothing(m, pairs, key);
        } else {
            let base = choose|base: Seq<char>| #[trigger]
                is_matched(m, base) && (key == factor_a_key(base) || key == factor_b_key(base));
            let x = PairView { base, a: m[factor_a_key(base)], b: m[factor_b_key(base)] };
            assert(!is_matched(rest, base));
            assert(!has_base(pairs, base)) by {
                if has_base(pairs, base) {
                    let i = choose|i: int| 0 <= i < pairs.len() && #[trigger] pairs[i].base == base;
                    assert(pair_matches(rest, pairs[i]));
                }
            }
            let at = lemma_insert_point(pairs, base, 0);
            lemma_insert_keeps_order(pairs, at, x);
            let next = pairs.insert(at, x);
            assert forall|i: int| 0 <= i < pairs.len() implies pair_matches(
                m,
                #[trigger] pairs[i],
            ) by {
                assert(pair_matches(rest, pairs[i]));
            }
            lemma_insert_keeps(pairs, at, x, |p: PairView| pair_matches(m, p));
            assert forall|other: Seq<char>| #[trigger] is_matched(m, other) implies has_base(
                next,
                other,
            ) by {
                if other != base {
                    if factor_a_key(other) == factor_a_key(base) {
                        lemma_append_injective(other, base, ".lora_A.weight"@);
                    }
                    if factor_b_key(other) == factor_b_key(base) {
                        lemma_append_injective(other, base, ".lora_B.weight"@);
                    }
                    lemma_factor_keys_differ(other, base);
                    lemma_factor_keys_differ(base, other);
                    assert(is_matched(rest, other));
                }
                lemma_insert_has_base(pairs, at, x, other);
            }
            assert(is_extraction(m, next));
        }
    }
}

/// The pairs of a finite table come in ascending order of their layers'
/// names, one for each layer held in full: as many as there are such layers.
pub proof fn lemma_extraction_count(m: Map<Seq<char>, Tensor>)
    requires
        m.dom().finite(),
    ensures
        matched_bases(m).finite(),
        extraction(m).len() == matched_bases(m).len(),
        2 * extraction(m).len() <= m.dom().len(),
        sorted_by_base(extraction(m)),
{
    lemma_extraction_exists(m);
    lemma_pair_count(m, extraction(m));
    lemma_pairs_within_source(m, extraction(m));
}

/// Every class starts to count at zero.
pub proof fn lemma_class_count_starts_at_zero(
    pairs: Seq<PairView>,
    rules: RulesView,
    class: CandleLoraPrefix,
)
    ensures
        class_count(pairs, rules, class, 0) == 0,
{
}

/// A pair raises the count of its own class by one and leaves the counts of
/// the other classes as they are.
pub proof fn lemma_class_count_step(
    pairs: Seq<PairView>,
    rules: RulesView,
    class: CandleLoraPrefix,
    n: int,
)
    requires
        0 <= n < pairs.len(),
    ensures
        class_of(rules, pairs[n].base) == class ==> class_count(pairs, rules, class, n + 1)
            == class_count(pairs, rules, class, n) + 1,
        class_of(rules, pairs[n].base) != class ==> class_count(pairs, rules, class, n + 1)
            == class_count(pairs, rules, class, n),
{
}

/// The count of a class depends on which pairs belong to that class and on
/// nothing else.
pub proof fn lemma_class_count_independent(
    p: Seq<PairView>,
    q: Seq<PairView>,
    rules: RulesView,
    class: CandleLoraPrefix,
    n: int,
)
    requires
        0 <= n <= p.len(),
        n <= q.len(),
        forall|i: int|
            0 <= i < n ==> (class_of(rules, #[trigger] p[i].base) == class) == (class_of(
                rules,
                q[i].base,
            ) == class),
    ensures
        class_count(p, rules, class, n) == class_count(q, rules, class, n),
    decreases n,
{
    if n > 0 {
        assert((class_of(rules, p[n - 1].base) == class) == (class_of(rules, q[n - 1].base)
            == class));
        lemma_class_count_independent(p, q, rules, class, n - 1);
    }
}

/// The pairs of a class get the indices from zero up to their number, in
/// the order in which they come: a later pair of the class has a higher
/// index, and every index is below the number of the class's pairs.
pub proof fn lemma_class_indices_ascend(pairs: Seq<PairView>, rules: RulesView, i: int, j: int)
    requires
        0 <= i < j < pairs.len(),
        class_of(rules, pairs[i].base) == class_of(rules, pairs[j].base),
    ensures
        class_count(pairs, rules, class_of(rules, pairs[i].base), i) < class_count(
            pairs,
            rules,
            class_of(rules, pairs[i].base),
            j,
        ),
        class_count(pairs, rules, class_of(rules, pairs[j].base), j) < class_count(
            pairs,
            rules,
            class_of(rules, pairs[j].base),
            pairs.len() as int,
        ),
{
    lemma_class_count_grows(pairs, rules, class_of(rules, pairs[i].base), i, j);
    lemma_class_count_grows(pairs, rules, class_of(rules, pairs[j].base), j, pairs.len() as int);
}

/// Every pair belongs to exactly one class: the three counts add up to the
/// number of pairs counted.
pub proof fn lemma_class_counts_add_up(pairs: Seq<PairView>, rules: RulesView, n: int)
    requires
        0 <= n,
    ensures
        class_count(pairs, rules, CandleLoraPrefix::Llama, n) + class_count(
            pairs,
            rules,
            CandleLoraPrefix::LlamaCsa,
            n,
        ) + class_count(pairs, rules, CandleLoraPrefix::LlamaBlock, n) == n,
    decreases n,
{
    if n > 0 {
        lemma_class_counts_add_up(pairs, rules, n - 1);
    }
}

/// No placeholder is due where a pair belongs to the embedding class,
/// whatever was asked for; and none where none was asked for.
pub proof fn lemma_dummy_only_when_due(
    pairs: Seq<PairView>,
    rules: RulesView,
    add_dummy_embeddings: bool,
    i: int,
)
    ensures
        !add_dummy_embeddings ==> !needs_dummy(pairs, rules, add_dummy_embeddings),
        0 <= i < pairs.len() && class_of(rules, pairs[i].base) == CandleLoraPrefix::Llama
            ==> !needs_dummy(pairs, rules, add_dummy_embeddings),
{
    if 0 <= i < pairs.len() && class_of(rules, pairs[i].base) == CandleLoraPrefix::Llama {
        lemma_class_count_grows(pairs, rules, CandleLoraPrefix::Llama, i, pairs.len() as int);
    }
}

/// By the rules of the Llama family, a pair whose layer's name holds
/// `embed_tokens` or `lm_head` keeps the placeholder away.
pub proof fn lemma_llama_embedding_needs_no_dummy(
    pairs: Seq<PairView>,
    add_dummy_embeddings: bool,
    i: int,
)
    requires
        0 <= i < pairs.len(),
        classify(pairs[i].base) == CandleLoraPrefix::Llama,
    ensures
        !needs_dummy(pairs, llama_rules(), add_dummy_embeddings),
{
    lemma_llama_rules(pairs[i].base);
    lemma_dummy_only_when_due(pairs, llama_rules(), add_dummy_embeddings, i);
}

} // verus!
