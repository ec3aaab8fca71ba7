//! A fixed-content cyclic sequence with a single read/advance cursor. The
//! orchestrator fills it once per generation, sorts it by first-fire delay,
//! and then only traverses it with `next` and `prev`.

use vstd::prelude::*;
use vstd::seq_lib::group_to_multiset_ensures;
use vstd::seq_lib::to_multiset_insert;
use vstd::seq_lib::to_multiset_remove;

verus! {

/// Keys in ascending order.
pub open spec fn sorted_keys(ks: Seq<u64>) -> bool {
    forall|i: int, j: int| 0 <= i <= j < ks.len() ==> ks[i] <= ks[j]
}

#[derive(Debug)]
pub struct WrappingVec<T> {
    data: Vec<T>,
    current_index: usize,
}

impl<T> WrappingVec<T> {
    /// The elements, in their current order.
    pub closed spec fn items(&self) -> Seq<T> {
        self.data@
    }

    /// The cursor: the index that the next call of `next` returns.
    pub closed spec fn cursor(&self) -> int {
        self.current_index as int
    }

    /// The cursor stays inside the sequence, and rests at zero when it is empty.
    pub open spec fn wf(&self) -> bool {
        &&& self.items().len() == 0 ==> self.cursor() == 0
        &&& self.items().len() > 0 ==> 0 <= self.cursor() < self.items().len()
    }

    pub fn new() -> (v: WrappingVec<T>)
        ensures
            v.items() == Seq::<T>::empty(),
            v.cursor() == 0,
            v.wf(),
    {
        WrappingVec { data: Vec::new(), current_index: 0 }
    }

    /// How many elements the sequence holds.
    pub fn len(&self) -> (n: usize)
        ensures
            n == self.items().len(),
    {
        self.data.len()
    }

    /// Appends an element; the cursor does not move.
    pub fn push(&mut self, item: T)
        requires
            old(self).wf(),
        ensures
            final(self).items() == old(self).items().push(item),
            final(self).cursor() == old(self).cursor(),
            final(self).wf(),
    {
        self.data.push(item);
    }

    /// Empties the sequence and rewinds the cursor.
    pub fn clear(&mut self)
        ensures
            final(self).items() == Seq::<T>::empty(),
            final(self).cursor() == 0,
            final(self).wf(),
    {
        self.data.clear();
        self.current_index = 0;
    }

    /// Returns the element under the cursor and advances the cursor by one,
    /// wrapping to the start past the last index; `None` when empty.
    pub fn next(&mut self) -> (r: Option<&T>)
        requires
            old(self).wf(),
        ensures
            final(self).items() == old(self).items(),
            final(self).wf(),
            old(self).items().len() == 0 ==> r is None && final(self).cursor() == old(
                self,
            ).cursor(),
            old(self).items().len() > 0 ==> (r matches Some(x) && *x == old(self).items()[old(
                self,
            ).cursor()] && final(self).cursor() == (if old(self).cursor() + 1 == old(
                self,
            ).items().len() {
                0int
            } else {
                old(self).cursor() + 1
            })),
    {
        if self.data.is_empty() {
            None
        } else {
            let len = self.data.len();
            let idx = self.current_index;
            proof {
                assert(idx < len);
            }
            self.current_index = if idx + 1 == len {
                0
            } else {
                idx + 1
            };
            Some(&self.data[idx])
        }
    }

    /// Returns the element just before the cursor, wrapping to the last index
    /// when the cursor is at zero; the cursor does not move.
    pub fn prev(&self) -> (r: Option<&T>)
        requires
            self.wf(),
        ensures
            self.items().len() == 0 ==> r is None,
            self.items().len() > 0 && self.cursor() == 0 ==> (r matches Some(x) && *x
                == self.items().last()),
            self.items().len() > 0 && self.cursor() > 0 ==> (r matches Some(x) && *x
                == self.items()[self.cursor() - 1]),
    {
        let num_elements = self.data.len();
        if num_elements == 0 {
            return None;
        }
        let prev_index = if self.current_index == 0 {
            num_elements - 1
        } else {
            self.current_index - 1
        };
        self.at(prev_index)
    }

    /// The element at `index`, or `None` past the end.
    pub fn at(&self, index: usize) -> (r: Option<&T>)
        ensures
            index < self.items().len() ==> (r matches Some(x) && *x == self.items()[index as int]),
            index >= self.items().len() ==> r is None,
    {
        if index < self.data.len() {
            Some(&self.data[index])
        } else {
            None
        }
    }

    /// Reorders the elements so that the keys the extractor assigns them are
    /// ascending; the content (as a multiset) and the cursor stay as they were.
    pub fn sort_by_key<F: Fn(&T) -> u64>(&mut self, key_extractor: F)
        requires
            old(self).wf(),
            forall|x: &T| #[trigger] call_requires(key_extractor, (x,)),
        ensures
            final(self).items().to_multiset() == old(self).items().to_multiset(),
            final(self).items().len() == old(self).items().len(),
            final(self).cursor() == old(self).cursor(),
            final(self).wf(),
            exists|ks: Seq<u64>|
                ks.len() == final(self).items().len() && sorted_keys(ks) && (forall|i: int|
                    0 <= i < ks.len() ==> call_ensures(
                        key_extractor,
                        (&final(self).items()[i],),
                        ks[i],
                    )),
    {
        let ghost orig = self.data@;
        let ghost idx0 = self.current_index;
        let mut keyed: Vec<(u64, T)> = Vec::new();
        proof {
            assert(self.data@ + keyed@.map_values(|p: (u64, T)| p.1).reverse() =~= orig);
        }
        while self.data.len() > 0
            invariant
                self.current_index == idx0,
                forall|x: &T| #[trigger] call_requires(key_extractor, (x,)),
                self.data@ + keyed@.map_values(|p: (u64, T)| p.1).reverse() == orig,
                forall|i: int|
                    0 <= i < keyed@.len() ==> call_ensures(
                        key_extractor,
                        (&keyed@[i].1,),
                        #[trigger] keyed@[i].0,
                    ),
            decreases self.data@.len(),
        {
            let x = self.data.pop().unwrap();
            let k = key_extractor(&x);
            keyed.push((k, x));
            proof {
                assert(self.data@ + keyed@.map_values(|p: (u64, T)| p.1).reverse() =~= orig);
            }
        }
        proof {
            assert(keyed@.map_values(|p: (u64, T)| p.1).reverse() =~= orig);
            keyed@.map_values(|p: (u64, T)| p.1).lemma_reverse_to_multiset();
        }
        let ghost keyed_start = keyed@;

        let mut i: usize = 1;
        while i < keyed.len()
            invariant
                forall|q1: int, q2: int| 0 <= q1 <= q2 < i ==> keyed@[q1].0 <= keyed@[q2].0,
                keyed@.to_multiset() == keyed_start.to_multiset(),
                keyed@.len() == keyed_start.len(),
                forall|q: int|
                    0 <= q < keyed@.len() ==> call_ensures(
                        key_extractor,
                        (&keyed@[q].1,),
                        #[trigger] keyed@[q].0,
                    ),
            decreases keyed@.len() - i,
        {
            let mut p: usize = i;
            while p > 0 && keyed[p - 1].0 > keyed[i].0
                invariant
                    p <= i < keyed@.len(),
                    forall|q: int| p <= q < i ==> keyed@[q].0 > keyed@[i as int].0,
                decreases p,
            {
                p = p - 1;
            }
            let ghost before = keyed@;
            let x = keyed.remove(i);
            keyed.insert(p, x);
            proof {
                broadcast use group_to_multiset_ensures, to_multiset_insert, to_multiset_remove;

                assert(keyed@.to_multiset() =~= keyed_start.to_multiset());
                assert(forall|q: int|
                    0 <= q <= i ==> (#[trigger] keyed@[q]) == (if q < p {
                        before[q]
                    } else if q == p {
                        before[i as int]
                    } else {
                        before[q - 1]
                    }));
            }
            i = i + 1;
        }
        let ghost sorted = keyed@;

        proof {
            assert(self.data@ =~= sorted.subrange(0, sorted.len() - keyed@.len()).map_values(
                |p: (u64, T)| p.1,
            ));
            assert(keyed@ =~= sorted.subrange(sorted.len() - keyed@.len(), sorted.len() as int));
        }
        while keyed.len() > 0
            invariant
                self.current_index == idx0,
                keyed@.len() <= sorted.len(),
                self.data@ == sorted.subrange(0, sorted.len() - keyed@.len()).map_values(
                    |p: (u64, T)| p.1,
                ),
                keyed@ == sorted.subrange(sorted.len() - keyed@.len(), sorted.len() as int),
            decreases keyed@.len(),
        {
            let ghost done_before = sorted.len() - keyed@.len();
            let pair = keyed.remove(0);
            self.data.push(pair.1);
            proof {
                let done = done_before + 1;
                assert(pair == sorted[done_before]);
                assert(keyed@ =~= sorted.subrange(done, sorted.len() as int));
                assert(self.data@ =~= sorted.subrange(0, done).map_values(|p: (u64, T)| p.1));
            }
        }
        proof {
            broadcast use group_to_multiset_ensures;

            assert(self.data@ =~= sorted.map_values(|p: (u64, T)| p.1));
            let snd = |p: (u64, T)| p.1;
            assert(sorted.map_values(snd).to_multiset() == orig.to_multiset()) by {
                lemma_map_values_multiset(keyed_start, sorted, snd);
                assert(keyed_start.map_values(|p: (u64, T)| p.1) =~= keyed_start.map_values(snd));
                assert(sorted.map_values(|p: (u64, T)| p.1) =~= sorted.map_values(snd));
            }
            assert(self.data@ =~= sorted.map_values(|p: (u64, T)| p.1));
            let ks = sorted.map_values(|p: (u64, T)| p.0);
            assert(ks.len() == self.data@.len() && sorted_keys(ks) && (forall|q: int|
                0 <= q < ks.len() ==> call_ensures(key_extractor, (&self.data@[q],), ks[q])));
            assert(self.data@.len() == self.data@.to_multiset().len());
            assert(orig.len() == orig.to_multiset().len());
        }
    }
}

/// Mapping two multiset-equal sequences through the same function keeps the
/// results multiset-equal.
pub(crate) proof fn lemma_map_values_multiset<A, B>(s1: Seq<A>, s2: Seq<A>, f: spec_fn(A) -> B)
    requires
        s1.to_multiset() == s2.to_multiset(),
    ensures
        s1.map_values(f).to_multiset() == s2.map_values(f).to_multiset(),
    decreases s1.len(),
{
    broadcast use group_to_multiset_ensures;

    if s1.len() == 0 {
        assert(s1.to_multiset().len() == 0);
        assert(s2.len() == s2.to_multiset().len());
        assert(s2.len() == 0);
        assert(s1.map_values(f).to_multiset() =~= s2.map_values(f).to_multiset());
    } else {
        let x = s1.last();
        assert(s1.to_multiset().contains(x));
        assert(s2.to_multiset().contains(x));
        assert(s2.contains(x));
        let j = choose|j: int| 0 <= j < s2.len() && s2[j] == x;
        let s1p = s1.drop_last();
        let s2p = s2.remove(j);
        assert(s1 == s1p.push(x));
        assert(s1p.push(x).to_multiset() == s1p.to_multiset().insert(x));
        assert(s2p.to_multiset() == s2.to_multiset().remove(x));
        assert(s1p.to_multiset() =~= s2p.to_multiset()) by {
            assert(s1p.to_multiset().insert(x) == s2p.to_multiset().insert(x));
            assert(forall|a: A|
                s1p.to_multiset().count(a) == #[trigger] s2p.to_multiset().count(a)) by {
                assert(forall|a: A|
                    s1p.to_multiset().insert(x).count(a) == #[trigger] s2p.to_multiset().insert(
                        x,
                    ).count(a));
            }
        }
        lemma_map_values_multiset(s1p, s2p, f);
        assert(s1.map_values(f) =~= s1p.map_values(f).push(f(x)));
        assert(s2.map_values(f).to_multiset() =~= s2p.map_values(f).to_multiset().insert(f(x)))
            by {
            assert(s2.map_values(f).remove(j) =~= s2p.map_values(f));
            assert(s2.map_values(f).remove(j).to_multiset() == s2.map_values(f).to_multiset().remove(
                f(x),
            ));
            assert(s2.map_values(f).to_multiset().contains(f(x)));
        }
        assert(s1.map_values(f).to_multiset() == s1p.map_values(f).to_multiset().insert(f(x)));
    }
}

} // verus!
