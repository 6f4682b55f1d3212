//! The pair extractor: from a table of tensors to the adapters it holds in
//! full, ordered by name.

use crate::table::NamedTensors;
use crate::tensor::clone_tensor;
use crate::text::{
    chars_lt, has_suffix, lemma_lex_lt_irreflexive, lemma_lex_lt_total, lemma_lex_lt_transitive,
    lex_lt, strip_suffix, to_chars, views_of,
};
use candle_core::Tensor;
use vstd::prelude::*;
use vstd::string::StringExecFns;

verus! {

/// The two factors of one adapter, under the name of the layer it adapts.
pub struct AdapterPair {
    pub base_name: String,
    pub factor_a: Tensor,
    pub factor_b: Tensor,
}

/// What an [`AdapterPair`] stands for: the layer's name as characters, and
/// the two factors.
pub struct PairView {
    pub base: Seq<char>,
    pub a: Tensor,
    pub b: Tensor,
}

impl View for AdapterPair {
    type V = PairView;

    open spec fn view(&self) -> PairView {
        PairView { base: self.base_name@, a: self.factor_a, b: self.factor_b }
    }
}

/// The views of `pairs`, in order.
pub open spec fn pair_views(pairs: Seq<AdapterPair>) -> Seq<PairView> {
    Seq::new(pairs.len(), |i: int| pairs[i]@)
}

/// The name under which the first factor of the layer `base` is stored.
pub open spec fn factor_a_key(base: Seq<char>) -> Seq<char> {
    base + ".lora_A.weight"@
}

/// The name under which the second factor of the layer `base` is stored.
pub open spec fn factor_b_key(base: Seq<char>) -> Seq<char> {
    base + ".lora_B.weight"@
}

/// Both factors of the layer `base` are in `m`.
pub open spec fn is_matched(m: Map<Seq<char>, Tensor>, base: Seq<char>) -> bool {
    m.contains_key(factor_a_key(base)) && m.contains_key(factor_b_key(base))
}

/// The layers of which `m` holds both factors.
pub open spec fn matched_bases(m: Map<Seq<char>, Tensor>) -> Set<Seq<char>> {
    Set::new(|base: Seq<char>| is_matched(m, base))
}

/// `p` is the pair that `m` holds for the layer `p.base`.
pub open spec fn pair_matches(m: Map<Seq<char>, Tensor>, p: PairView) -> bool {
    &&& is_matched(m, p.base)
    &&& p.a == m[factor_a_key(p.base)]
    &&& p.b == m[factor_b_key(p.base)]
}

/// The layers' names strictly ascend along `pairs`.
pub open spec fn sorted_by_base(pairs: Seq<PairView>) -> bool {
    forall|i: int, j: int|
        0 <= i < j < pairs.len() ==> lex_lt(#[trigger] pairs[i].base, #[trigger] pairs[j].base)
}

/// One of `pairs` is for the layer `base`.
pub open spec fn has_base(pairs: Seq<PairView>, base: Seq<char>) -> bool {
    exists|i: int| 0 <= i < pairs.len() && #[trigger] pairs[i].base == base
}

/// `pairs` is what the extractor owes for `m`: one pair for each layer that
/// `m` holds in full and no other, each with the factors that `m` holds for
/// it, in ascending order of the layers' names.
pub open spec fn is_extraction(m: Map<Seq<char>, Tensor>, pairs: Seq<PairView>) -> bool {
    &&& sorted_by_base(pairs)
    &&& forall|i: int| 0 <= i < pairs.len() ==> pair_matches(m, #[trigger] pairs[i])
    &&& forall|base: Seq<char>| #[trigger] is_matched(m, base) ==> has_base(pairs, base)
}

/// The pairs of `m`: the one sequence that [`is_extraction`] admits.
pub open spec fn extraction(m: Map<Seq<char>, Tensor>) -> Seq<PairView> {
    choose|pairs: Seq<PairView>| is_extraction(m, pairs)
}

/// A sequence that ends in `suffix` determines what stands before it.
pub proof fn lemma_append_injective(x: Seq<char>, y: Seq<char>, suffix: Seq<char>)
    requires
        x + suffix == y + suffix,
    ensures
        x == y,
{
    assert((x + suffix).len() == x.len() + suffix.len());
    assert((y + suffix).len() == y.len() + suffix.len());
    assert forall|i: int| 0 <= i < x.len() implies x[i] == y[i] by {
        assert((x + suffix)[i] == x[i]);
        assert((y + suffix)[i] == y[i]);
    }
    assert(x =~= y);
}

/// What was appended is a suffix.
pub proof fn lemma_append_has_suffix(x: Seq<char>, suffix: Seq<char>)
    ensures
        has_suffix(x + suffix, suffix),
{
    let s = x + suffix;
    assert(s.subrange(s.len() - suffix.len(), s.len() as int) =~= suffix);
}

/// No name is the key of a first factor and of a second factor at once.
pub proof fn lemma_factor_keys_differ(x: Seq<char>, y: Seq<char>)
    ensures
        factor_a_key(x) != factor_b_key(y),
{
    reveal_strlit(".lora_A.weight");
    reveal_strlit(".lora_B.weight");
    let a = factor_a_key(x);
    let b = factor_b_key(y);
    if a == b {
        assert(a.len() == x.len() + 14);
        assert(b.len() == y.len() + 14);
        assert(a[x.len() as int + 6] == 'A');
        assert(b[y.len() as int + 6] == 'B');
    }
}

/// Two extractions of one table are the same sequence.
pub proof fn lemma_extraction_unique(
    m: Map<Seq<char>, Tensor>,
    p: Seq<PairView>,
    q: Seq<PairView>,
)
    requires
        is_extraction(m, p),
        is_extraction(m, q),
    ensures
        p == q,
{
    assert(p.take(p.len() as int) =~= p);
    assert(q.take(q.len() as int) =~= q);
    assert forall|i: int| 0 <= i < p.len() implies has_base(q, #[trigger] p[i].base) by {
        assert(pair_matches(m, p[i]));
    }
    assert forall|j: int| 0 <= j < q.len() implies has_base(p, #[trigger] q[j].base) by {
        assert(pair_matches(m, q[j]));
    }
    lemma_same_bases(p, q, p.len() as int, q.len() as int);
    assert forall|i: int| 0 <= i < p.len() implies p[i] == q[i] by {
        assert(pair_matches(m, p[i]));
        assert(pair_matches(m, q[i]));
    }
    assert(p =~= q);
}

/// Ascending sequences over the same layers have the same length and the
/// same layer at each position. Stated of the first `n` of `p` and the first
/// `k` of `q`.
proof fn lemma_same_bases(p: Seq<PairView>, q: Seq<PairView>, n: int, k: int)
    requires
        0 <= n <= p.len(),
        0 <= k <= q.len(),
        sorted_by_base(p),
        sorted_by_base(q),
        forall|i: int| 0 <= i < n ==> has_base(q.take(k), #[trigger] p[i].base),
        forall|j: int| 0 <= j < k ==> has_base(p.take(n), #[trigger] q[j].base),
    ensures
        n == k,
        forall|i: int| 0 <= i < n ==> (#[trigger] p[i]).base == q[i].base,
    decreases n,
{
    if n == 0 {
        if k > 0 {
            assert(has_base(p.take(n), q[0].base));
        }
    } else {
        let last = p[n - 1].base;
        assert(has_base(q.take(k), last));
        let j = choose|j: int| 0 <= j < q.take(k).len() && #[trigger] q.take(k)[j].base == last;
        assert(q[j].base == last);
        if j != k - 1 {
            // the last of q stands somewhere in p, at or before the last of p
            assert(has_base(p.take(n), q[k - 1].base));
            let i = choose|i: int|
                0 <= i < p.take(n).len() && #[trigger] p.take(n)[i].base == q[k - 1].base;
            assert(p[i].base == q[k - 1].base);
            assert(lex_lt(q[j].base, q[k - 1].base));
            if i < n - 1 {
                assert(lex_lt(p[i].base, p[n - 1].base));
                lemma_lex_lt_transitive(last, q[k - 1].base, last);
            }
            lemma_lex_lt_irreflexive(last);
            assert(false);
        }
        assert forall|i: int| 0 <= i < n - 1 implies has_base(
            q.take(k - 1),
            #[trigger] p[i].base,
        ) by {
            assert(has_base(q.take(k), p[i].base));
            let jj = choose|jj: int|
                0 <= jj < q.take(k).len() && #[trigger] q.take(k)[jj].base == p[i].base;
            assert(q[jj].base == p[i].base);
            if jj == k - 1 {
                assert(lex_lt(p[i].base, p[n - 1].base));
                lemma_lex_lt_irreflexive(last);
            }
            assert(q.take(k - 1)[jj].base == p[i].base);
        }
        assert forall|jj: int| 0 <= jj < k - 1 implies has_base(
            p.take(n - 1),
            #[trigger] q[jj].base,
        ) by {
            assert(has_base(p.take(n), q[jj].base));
            let i = choose|i: int|
                0 <= i < p.take(n).len() && #[trigger] p.take(n)[i].base == q[jj].base;
            assert(p[i].base == q[jj].base);
            if i == n - 1 {
                assert(lex_lt(q[jj].base, q[k - 1].base));
                lemma_lex_lt_irreflexive(last);
            }
            assert(p.take(n - 1)[i].base == q[jj].base);
        }
        lemma_same_bases(p, q, n - 1, k - 1);
    }
}

/// Puts `pair` where its layer's name belongs among `pairs`, and its name's
/// characters at the same place in `bases`. Returns that place.
fn insert_sorted(
    pairs: &mut Vec<AdapterPair>,
    bases: &mut Vec<Vec<char>>,
    pair: AdapterPair,
    base: Vec<char>,
) -> (at: usize)
    requires
        base@ == pair@.base,
        old(bases).len() == old(pairs).len(),
        forall|i: int| 0 <= i < old(pairs).len() ==> old(bases)[i]@ == old(pairs)[i]@.base,
        sorted_by_base(pair_views(old(pairs)@)),
        !has_base(pair_views(old(pairs)@), pair@.base),
    ensures
        at <= old(pairs).len(),
        pair_views(final(pairs)@) == pair_views(old(pairs)@).insert(at as int, pair@),
        final(bases).len() == final(pairs).len(),
        forall|i: int| 0 <= i < final(pairs).len() ==> final(bases)[i]@ == final(pairs)[i]@.base,
        sorted_by_base(pair_views(final(pairs)@)),
{
    let ghost before = pair_views(pairs@);
    let ghost old_pairs = pairs@;
    let ghost old_bases = bases@;
    let ghost new_pair = pair@;
    let n: usize = pairs.len();
    let mut at: usize = 0;
    while at < n && chars_lt(&bases[at], &base)
        invariant
            n == pairs.len(),
            n == bases.len(),
            at <= n,
            base@ == new_pair.base,
            pairs@ == old_pairs,
            bases@ == old_bases,
            before == pair_views(old_pairs),
            forall|i: int| 0 <= i < n ==> old_bases[i]@ == old_pairs[i]@.base,
            forall|i: int| 0 <= i < at ==> lex_lt(before[i].base, new_pair.base),
        decreases n - at,
    {
        at = at + 1;
    }
    pairs.insert(at, pair);
    bases.insert(at, base);
    proof {
        let after = pair_views(pairs@);
        old_pairs.insert_ensures(at as int, pairs@[at as int]);
        old_bases.insert_ensures(at as int, bases@[at as int]);
        before.insert_ensures(at as int, new_pair);
        assert(after =~= before.insert(at as int, new_pair)) by {
            assert forall|i: int| 0 <= i < after.len() implies after[i] == before.insert(
                at as int,
                new_pair,
            )[i] by {
                if i > at {
                    assert(old_pairs.insert(at as int, pairs@[at as int])[(i - 1) + 1]
                        == old_pairs[i - 1]);
                    assert(before.insert(at as int, new_pair)[(i - 1) + 1] == before[i - 1]);
                }
            }
        }
        assert forall|i: int| 0 <= i < pairs.len() implies bases[i]@ == pairs[i]@.base by {
            if i > at {
                assert(old_pairs.insert(at as int, pairs@[at as int])[(i - 1) + 1]
                    == old_pairs[i - 1]);
                assert(old_bases.insert(at as int, bases@[at as int])[(i - 1) + 1]
                    == old_bases[i - 1]);
            }
        }
        assert(before[at as int].base == old_bases[at as int]@ || at == n);
        lemma_insert_keeps_order(before, at as int, new_pair);
    }
    at
}

/// A pair put where its layer's name belongs keeps the order: before the
/// place every name is smaller, and at the place none is.
pub proof fn lemma_insert_keeps_order(pairs: Seq<PairView>, at: int, x: PairView)
    requires
        sorted_by_base(pairs),
        !has_base(pairs, x.base),
        0 <= at <= pairs.len(),
        forall|i: int| 0 <= i < at ==> lex_lt(#[trigger] pairs[i].base, x.base),
        at == pairs.len() || !lex_lt(pairs[at].base, x.base),
    ensures
        sorted_by_base(pairs.insert(at, x)),
{
    let n = pairs.len() as int;
    let after = pairs.insert(at, x);
    pairs.insert_ensures(at, x);
    // whatever stood at or after the place comes after the new name
    assert forall|i: int| at <= i < n implies lex_lt(x.base, #[trigger] pairs[i].base) by {
        assert(pairs[at].base != x.base);
        lemma_lex_lt_total(pairs[at].base, x.base);
        if i > at {
            assert(lex_lt(pairs[at].base, pairs[i].base));
            lemma_lex_lt_transitive(x.base, pairs[at].base, pairs[i].base);
        }
    }
    assert forall|i: int, j: int| 0 <= i < j < after.len() implies lex_lt(
        #[trigger] after[i].base,
        #[trigger] after[j].base,
    ) by {
        if j < at {
            assert(lex_lt(pairs[i].base, pairs[j].base));
        } else if j == at {
            assert(after[i] == pairs[i]);
        } else {
            assert(after[(j - 1) + 1] == pairs[j - 1]);
            if i < at {
                assert(after[i] == pairs[i]);
                if i < j - 1 {
                    assert(lex_lt(pairs[i].base, pairs[j - 1].base));
                }
            } else if i > at {
                assert(after[(i - 1) + 1] == pairs[i - 1]);
                assert(lex_lt(pairs[i - 1].base, pairs[j - 1].base));
            }
        }
    }
}

/// Putting `x` into `s` keeps what holds of `x` and of each of `s`.
pub proof fn lemma_insert_keeps(s: Seq<PairView>, at: int, x: PairView, holds: spec_fn(PairView) -> bool)
    requires
        0 <= at <= s.len(),
        holds(x),
        forall|i: int| 0 <= i < s.len() ==> holds(#[trigger] s[i]),
    ensures
        forall|i: int| 0 <= i < s.insert(at, x).len() ==> holds(#[trigger] s.insert(at, x)[i]),
{
    s.insert_ensures(at, x);
    assert forall|i: int| 0 <= i < s.insert(at, x).len() implies holds(
        #[trigger] s.insert(at, x)[i],
    ) by {
        if i > at {
            assert(s.insert(at, x)[(i - 1) + 1] == s[i - 1]);
        }
    }
}

/// Putting `x` into `s` keeps the layers of `s` and adds that of `x`.
pub proof fn lemma_insert_has_base(s: Seq<PairView>, at: int, x: PairView, base: Seq<char>)
    requires
        0 <= at <= s.len(),
        has_base(s, base) || x.base == base,
    ensures
        has_base(s.insert(at, x), base),
{
    s.insert_ensures(at, x);
    let t = s.insert(at, x);
    if x.base == base {
        assert(t[at].base == base);
    } else {
        let i = choose|i: int| 0 <= i < s.len() && #[trigger] s[i].base == base;
        if i < at {
            assert(t[i].base == base);
        } else {
            assert(t[i + 1] == s[i]);
            assert(t[i + 1].base == base);
        }
    }
}

/// The adapters that `src` holds in full: one pair for each layer of which
/// both factors are stored, with those two tensors, in ascending order of the
/// layers' names. A factor without its counterpart, and a tensor that is no
/// factor, are passed over.
pub fn extract_pairs(src: &NamedTensors) -> (pairs: Vec<AdapterPair>)
    ensures
        is_extraction(src@, pair_views(pairs@)),
        pair_views(pairs@) == extraction(src@),
{
    let names = src.keys();
    let ghost m = src@;
    let ghost keys = views_of(names@);
    let mut pairs: Vec<AdapterPair> = Vec::new();
    let mut bases: Vec<Vec<char>> = Vec::new();
    let mut idx: usize = 0;
    while idx < names.len()
        invariant
            idx <= names.len(),
            m == src@,
            keys == views_of(names@),
            keys.no_duplicates(),
            keys.to_set() == m.dom(),
            bases.len() == pairs.len(),
            forall|i: int| 0 <= i < pairs.len() ==> bases[i]@ == pairs[i]@.base,
            sorted_by_base(pair_views(pairs@)),
            forall|i: int|
                0 <= i < pairs.len() ==> pair_matches(m, #[trigger] pair_views(pairs@)[i]),
            forall|i: int|
                0 <= i < pairs.len() ==> keys.take(idx as int).contains(
                    factor_a_key(#[trigger] pair_views(pairs@)[i].base),
                ),
            forall|base: Seq<char>|
                #[trigger] is_matched(m, base) && keys.take(idx as int).contains(
                    factor_a_key(base),
                ) ==> has_base(pair_views(pairs@), base),
        decreases names.len() - idx,
    {
        let name: &String = &names[idx];
        let ghost key = keys[idx as int];
        let ghost seen = keys.take(idx as int);
        let ghost seen_next = keys.take(idx + 1);
        let ghost before = pair_views(pairs@);
        assert(name@ == key);
        assert(seen_next =~= seen.push(key));
        assert forall|k: Seq<char>| seen_next.contains(k) <==> (seen.contains(k) || k == key) by {
            if seen.contains(k) {
                let j = choose|j: int| 0 <= j < seen.len() && seen[j] == k;
                assert(seen_next[j] == k);
            }
            if k == key {
                assert(seen_next[idx as int] == k);
            }
        }
        assert(!seen.contains(key)) by {
            if seen.contains(key) {
                let j = choose|j: int| 0 <= j < seen.len() && seen[j] == key;
                assert(keys[j] == key);
            }
        }
        assert(m.contains_key(key)) by {
            assert(keys.contains(key));
            assert(keys.to_set().contains(key));
        }
        match strip_suffix(name.as_str(), ".lora_A.weight") {
            Some(base) => {
                assert(factor_a_key(base@) == key);
                let mut b_name = base.clone();
                b_name.append(".lora_B.weight");
                assert(b_name@ == factor_b_key(base@));
                let first = src.get(name.as_str());
                let second = src.get(b_name.as_str());
                match first {
                    Some(a) => {
                        match second {
                            Some(b) => {
                                let pair = AdapterPair {
                                    base_name: base,
                                    factor_a: clone_tensor(a),
                                    factor_b: clone_tensor(b),
                                };
                                let chars = to_chars(pair.base_name.as_str());
                                let ghost pv = pair@;
                                assert(pair_matches(m, pv));
                                assert(!has_base(before, pv.base)) by {
                                    if has_base(before, pv.base) {
                                        let i = choose|i: int|
                                            0 <= i < before.len() && #[trigger] before[i].base
                                                == pv.base;
                                        assert(seen.contains(factor_a_key(before[i].base)));
                                    }
                                }
                                let at = insert_sorted(&mut pairs, &mut bases, pair, chars);
                                proof {
                                    let after = pair_views(pairs@);
                                    lemma_insert_keeps(
                                        before,
                                        at as int,
                                        pv,
                                        |p: PairView| pair_matches(m, p),
                                    );
                                    lemma_insert_keeps(
                                        before,
                                        at as int,
                                        pv,
                                        |p: PairView| seen_next.contains(factor_a_key(p.base)),
                                    );
                                    assert forall|other: Seq<char>| #[trigger]
                                        is_matched(m, other) && seen_next.contains(
                                            factor_a_key(other),
                                        ) implies has_base(after, other) by {
                                        if factor_a_key(other) == key {
                                            lemma_append_injective(
                                                other,
                                                pv.base,
                                                ".lora_A.weight"@,
                                            );
                                        }
                                        lemma_insert_has_base(before, at as int, pv, other);
                                    }
                                }
                            },
                            None => {
                                assert(!is_matched(m, base@));
                                assert forall|other: Seq<char>| #[trigger]
                                    is_matched(m, other) && seen_next.contains(
                                        factor_a_key(other),
                                    ) implies has_base(before, other) by {
                                    if factor_a_key(other) == key {
                                        lemma_append_injective(other, base@, ".lora_A.weight"@);
                                    }
                                }
                            },
                        }
                    },
                    None => {
                        assert(false);
                    },
                }
            },
            None => {
                assert forall|other: Seq<char>| #[trigger]
                    is_matched(m, other) && seen_next.contains(
                        factor_a_key(other),
                    ) implies has_base(before, other) by {
                    lemma_append_has_suffix(other, ".lora_A.weight"@);
                }
            },
        }
        idx = idx + 1;
    }
    proof {
        let out = pair_views(pairs@);
        assert(keys.take(idx as int) =~= keys);
        assert forall|base: Seq<char>| #[trigger] is_matched(m, base) implies has_base(
            out,
            base,
        ) by {
            assert(keys.to_set().contains(factor_a_key(base)));
        }
        assert(is_extraction(m, out));
        lemma_extraction_unique(m, out, extraction(m));
    }
    pairs
}

} // verus!
