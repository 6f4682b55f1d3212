//! A table of tensors, each under one name.

use crate::text::views_of;
use candle_core::Tensor;
use vstd::prelude::*;

verus! {

/// A tensor and the name it is stored under.
struct NamedTensor {
    name: String,
    tensor: Tensor,
}

/// A mapping from names to tensors. No name occurs twice.
pub struct NamedTensors {
    entries: Vec<NamedTensor>,
}

/// The names of `entries`, in order.
spec fn names_of(entries: Seq<NamedTensor>) -> Seq<Seq<char>> {
    Seq::new(entries.len(), |i: int| entries[i].name@)
}

impl View for NamedTensors {
    type V = Map<Seq<char>, Tensor>;

    closed spec fn view(&self) -> Map<Seq<char>, Tensor> {
        Map::new(
            |k: Seq<char>| names_of(self.entries@).contains(k),
            |k: Seq<char>| self.entries@[names_of(self.entries@).index_of(k)].tensor,
        )
    }
}

impl NamedTensors {
    #[verifier::type_invariant]
    closed spec fn distinct_names(&self) -> bool {
        names_of(self.entries@).no_duplicates()
    }

    /// The empty table.
    pub fn new() -> (r: Self)
        ensures
            r@ == Map::<Seq<char>, Tensor>::empty(),
    {
        let r = NamedTensors { entries: Vec::new() };
        assert(names_of(r.entries@) =~= Seq::<Seq<char>>::empty());
        assert(r@ =~= Map::<Seq<char>, Tensor>::empty());
        r
    }

    /// The position of `name` among the entries, if it is there.
    fn position(&self, name: &String) -> (r: Option<usize>)
        ensures
            match r {
                Some(i) => i < self.entries.len() && self.entries[i as int].name@ == name@,
                None => !names_of(self.entries@).contains(name@),
            },
    {
        let mut i: usize = 0;
        while i < self.entries.len()
            invariant
                i <= self.entries.len(),
                forall|j: int| 0 <= j < i ==> self.entries[j].name@ != name@,
            decreases self.entries.len() - i,
        {
            if self.entries[i].name == *name {
                return Some(i);
            }
            i = i + 1;
        }
        None
    }

    /// The number of names.
    pub fn len(&self) -> (r: usize)
        ensures
            self@.dom().finite(),
            r == self@.len(),
    {
        proof {
            use_type_invariant(self);
            let names = names_of(self.entries@);
            names.unique_seq_to_set();
            vstd::seq_lib::seq_to_set_is_finite(names);
            assert(self@.dom() =~= names.to_set());
        }
        self.entries.len()
    }

    /// Whether the table has no entry.
    pub fn is_empty(&self) -> (r: bool)
        ensures
            r == (self@ == Map::<Seq<char>, Tensor>::empty()),
    {
        let r = self.entries.len() == 0;
        proof {
            let names = names_of(self.entries@);
            if r {
                assert(self@ =~= Map::<Seq<char>, Tensor>::empty());
            } else {
                assert(names[0] == self.entries[0].name@);
                assert(names.contains(names[0]));
                assert(self@.dom().contains(names[0]));
            }
        }
        r
    }

    /// Whether `name` has a tensor.
    pub fn contains_key(&self, name: &str) -> (r: bool)
        ensures
            r == self@.contains_key(name@),
    {
        let key = name.to_owned();
        let found = self.position(&key);
        proof {
            if let Some(i) = found {
                assert(names_of(self.entries@)[i as int] == name@);
            }
        }
        found.is_some()
    }

    /// The tensor stored under `name`.
    pub fn get(&self, name: &str) -> (r: Option<&Tensor>)
        ensures
            r is Some == self@.contains_key(name@),
            r is Some ==> *r->0 == self@[name@],
    {
        let key = name.to_owned();
        match self.position(&key) {
            Some(i) => {
                proof {
                    use_type_invariant(self);
                    let names = names_of(self.entries@);
                    assert(names[i as int] == name@);
                    assert(names.contains(name@));
                    assert(names[names.index_of(name@)] == name@);
                }
                Some(&self.entries[i].tensor)
            },
            None => None,
        }
    }

    /// Stores `tensor` under `name`, in place of what was stored there.
    pub fn insert(&mut self, name: String, tensor: Tensor)
        ensures
            final(self)@ == old(self)@.insert(name@, tensor),
    {
        proof {
            use_type_invariant(&*self);
        }
        let ghost before = self.entries@;
        let ghost key = name@;
        let found = self.position(&name);
        let mut entries: Vec<NamedTensor> = Vec::new();
        assert(names_of(entries@) =~= Seq::<Seq<char>>::empty());
        core::mem::swap(&mut self.entries, &mut entries);
        match found {
            Some(i) => {
                entries.set(i, NamedTensor { name, tensor });
                assert(names_of(entries@) =~= names_of(before));
                self.entries = entries;
                proof {
                    let names = names_of(before);
                    assert(names[i as int] == key);
                    assert forall|k: Seq<char>| names.contains(k) implies #[trigger] self@[k]
                        == old(self)@.insert(key, tensor)[k] by {
                        let j = names.index_of(k);
                        assert(names[j] == k);
                        if k == key {
                            assert(j == i);
                        }
                    }
                    assert(self@ =~= old(self)@.insert(key, tensor));
                }
            },
            None => {
                entries.push(NamedTensor { name, tensor });
                assert(names_of(entries@) =~= names_of(before).push(key));
                self.entries = entries;
                proof {
                    let names = names_of(self.entries@);
                    let n = before.len() as int;
                    assert(names[n] == key);
                    assert forall|k: Seq<char>| names.contains(k) <==> (names_of(before).contains(
                        k,
                    ) || k == key) by {
                        if names_of(before).contains(k) {
                            let j0 = names_of(before).index_of(k);
                            assert(names[j0] == k);
                        }
                    }
                    assert forall|k: Seq<char>| names.contains(k) implies #[trigger] self@[k]
                        == old(self)@.insert(key, tensor)[k] by {
                        let j = names.index_of(k);
                        assert(names[j] == k);
                        if k == key {
                            assert(j == n);
                        } else {
                            assert(names_of(before)[j] == k);
                            let j0 = names_of(before).index_of(k);
                            assert(names_of(before)[j0] == k);
                            assert(names[j0] == k);
                        }
                    }
                    assert(self@ =~= old(self)@.insert(key, tensor));
                }
            },
        }
    }

    /// The names of the table, each once, in no order that callers may rely on.
    pub fn keys(&self) -> (r: Vec<String>)
        ensures
            views_of(r@).no_duplicates(),
            views_of(r@).to_set() == self@.dom(),
    {
        proof {
            use_type_invariant(self);
        }
        let mut r: Vec<String> = Vec::new();
        let mut i: usize = 0;
        while i < self.entries.len()
            invariant
                i <= self.entries.len(),
                views_of(r@) == names_of(self.entries@).take(i as int),
            decreases self.entries.len() - i,
        {
            let name = self.entries[i].name.clone();
            assert(name@ == self.entries[i as int].name@);
            let ghost prev = r@;
            r.push(name);
            i = i + 1;
            assert(views_of(r@) =~= views_of(prev).push(name@));
            assert(views_of(r@) =~= names_of(self.entries@).take(i as int));
        }
        assert(names_of(self.entries@).take(i as int) =~= names_of(self.entries@));
        assert(self@.dom() =~= names_of(self.entries@).to_set());
        r
    }
}

} // verus!
