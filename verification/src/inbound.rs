//! The read-only view of all neighbours' last-round messages, keyed by
//! neighbour identifier.

use vstd::prelude::*;

use crate::kv::AbsKey;
use crate::kv::OrdKey;
use crate::kv::kv_get;
use crate::kv::kv_map;
use crate::kv::kv_sorted;
use crate::kv::kv_sorted_set;
use crate::kv::lemma_kv_last_match;
use crate::kv::lemma_kv_some_match;
use crate::kv::lemma_kv_sorted_index;
use crate::path::Path;
use crate::valuetree::ValueTree;

verus! {

/// The abstract trees a map of value trees holds.
pub open spec fn trees_of(m: Map<int, ValueTree>) -> Map<int, Map<Seq<Seq<char>>, Seq<u8>>> {
    Map::new(|k: int| m.contains_key(k), |k: int| m[k]@)
}

/// Identifiers in strictly increasing order of the integers they denote.
pub open spec fn ids_sorted<Id: OrdKey>(s: Seq<Id>) -> bool {
    forall|i: int, j: int| 0 <= i < j < s.len() ==> s[i].abs() < s[j].abs()
}

/// The per-neighbour value trees one round receives.
#[derive(Debug)]
pub struct InboundMessage<Id: OrdKey> {
    entries: Vec<(Id, ValueTree)>,
}

impl<Id: OrdKey> View for InboundMessage<Id> {
    type V = Map<int, Map<Seq<Seq<char>>, Seq<u8>>>;

    closed spec fn view(&self) -> Map<int, Map<Seq<Seq<char>>, Seq<u8>>> {
        trees_of(kv_map(self.entries@))
    }
}

impl<Id: OrdKey> InboundMessage<Id> {
    #[verifier::type_invariant]
    spec fn wf(&self) -> bool {
        kv_sorted(self.entries@)
    }

    /// Composes the inbound view from per-neighbour trees; a later entry
    /// for an identifier overrides an earlier one.
    pub fn new(underlying: Vec<(Id, ValueTree)>) -> (r: Self)
        ensures
            r@ == trees_of(kv_map(underlying@)),
    {
        let ghost orig = underlying@;
        let mut src = underlying;
        let mut entries: Vec<(Id, ValueTree)> = Vec::new();
        while src.len() > 0
            invariant
                src@.len() <= orig.len(),
                src@ =~= orig.skip(orig.len() - src@.len()),
                kv_sorted(entries@),
                kv_map(entries@) == kv_map(orig.take(orig.len() - src@.len())),
            decreases src@.len(),
        {
            let ghost processed = orig.len() - src@.len();
            let e = src.remove(0);
            proof {
                assert(e == orig[processed]);
                assert(src@ =~= orig.skip(processed + 1));
                assert(orig.take(processed + 1).drop_last() =~= orig.take(processed));
                assert(orig.take(processed + 1).last() == orig[processed]);
            }
            kv_sorted_set(&mut entries, e.0, e.1);
        }
        proof {
            assert(orig.take(orig.len() as int) =~= orig);
        }
        InboundMessage { entries }
    }

    /// The tree the given neighbour emitted, if it is present.
    pub fn get(&self, id: &Id) -> (r: Option<&ValueTree>)
        ensures
            match r {
                Some(t) => self@.contains_key(id.abs()) && t@ == self@[id.abs()],
                None => !self@.contains_key(id.abs()),
            },
    {
        proof {
            use_type_invariant(&*self);
        }
        kv_get(&self.entries, id)
    }

    /// The neighbours that emitted a value at the path, with those bytes,
    /// in increasing identifier order.
    pub fn get_at_path(&self, path: &Path) -> (r: Vec<(Id, Vec<u8>)>)
        ensures
            kv_sorted(r@),
            forall|j: int|
                #![trigger r@[j]]
                0 <= j < r@.len() ==> self@.contains_key(r@[j].0.abs())
                    && self@[r@[j].0.abs()].contains_key(path@) && r@[j].1@
                    == self@[r@[j].0.abs()][path@],
            forall|k: int|
                #![trigger self@[k]]
                self@.contains_key(k) && self@[k].contains_key(path@) ==> kv_map(
                    r@,
                ).contains_key(k),
    {
        proof {
            use_type_invariant(&*self);
        }
        let mut out: Vec<(Id, Vec<u8>)> = Vec::new();
        let mut i: usize = 0;
        while i < self.entries.len()
            invariant
                i <= self.entries@.len(),
                kv_sorted(self.entries@),
                self@ == trees_of(kv_map(self.entries@)),
                forall|j: int|
                    #![trigger out@[j].0]
                    0 <= j < out@.len() ==> exists|i2: int|
                        0 <= i2 < i && out@[j].0.abs() == #[trigger] self.entries@[i2].0.abs(),
                kv_sorted(out@),
                forall|j: int|
                    #![trigger out@[j]]
                    0 <= j < out@.len() ==> self@.contains_key(out@[j].0.abs())
                        && self@[out@[j].0.abs()].contains_key(path@) && out@[j].1@
                        == self@[out@[j].0.abs()][path@],
                forall|i2: int|
                    0 <= i2 < i && self@[#[trigger] self.entries@[i2].0.abs()].contains_key(path@)
                        ==> kv_map(out@).contains_key(self.entries@[i2].0.abs()),
            decreases self.entries@.len() - i,
        {
            let id = self.entries[i].0;
            proof {
                lemma_kv_sorted_index(self.entries@, i as int);
            }
            let ghost out0 = out@;
            match self.entries[i].1.get(path) {
                Some(bytes) => {
                    proof {
                        assert forall|j: int| 0 <= j < out0.len() implies out0[j].0.abs()
                            < id.abs() by {
                            let i2 = choose|i2: int|
                                0 <= i2 < i && out0[j].0.abs()
                                    == #[trigger] self.entries@[i2].0.abs();
                            assert(self.entries@[i2].0.abs() < self.entries@[i as int].0.abs());
                        }
                    }
                    out.push((id, bytes));
                    proof {
                        assert(out@.drop_last() =~= out0);
                        assert(forall|j: int| 0 <= j < out0.len() ==> out@[j] == out0[j]);
                    }
                },
                None => {},
            }
            i = i + 1;
            proof {
                assert forall|i2: int|
                    0 <= i2 < i && self@[#[trigger] self.entries@[i2].0.abs()].contains_key(
                        path@,
                    ) implies kv_map(out@).contains_key(self.entries@[i2].0.abs()) by {
                    if i2 + 1 < i {
                        assert(kv_map(out0).contains_key(self.entries@[i2].0.abs()));
                        lemma_kv_some_match(out0, self.entries@[i2].0.abs());
                        let j = choose|j: int|
                            0 <= j < out0.len() && out0[j].0.abs() == self.entries@[i2].0.abs();
                        lemma_kv_last_match(out@, j);
                    } else {
                        lemma_kv_last_match(out@, out@.len() - 1);
                    }
                }
            }
        }
        proof {
            assert forall|k: int|
                self@.contains_key(k) && #[trigger] self@[k].contains_key(path@) implies kv_map(
                out@,
            ).contains_key(k) by {
                lemma_kv_some_match(self.entries@, k);
                let i2 = choose|i2: int|
                    0 <= i2 < self.entries@.len() && self.entries@[i2].0.abs() == k;
                lemma_kv_sorted_index(self.entries@, i2);
                assert(self@[self.entries@[i2].0.abs()].contains_key(path@));
            }
        }
        out
    }

    /// The neighbours that emitted a value at the path, in increasing
    /// identifier order.
    pub fn devices_at_path(&self, path: &Path) -> (r: Vec<Id>)
        ensures
            ids_sorted(r@),
            forall|j: int|
                #![trigger r@[j]]
                0 <= j < r@.len() ==> self@.contains_key(r@[j].abs())
                    && self@[r@[j].abs()].contains_key(path@),
            forall|k: int|
                #![trigger self@[k]]
                self@.contains_key(k) && self@[k].contains_key(path@) ==> exists|j: int|
                    0 <= j < r@.len() && r@[j].abs() == k,
    {
        let found = self.get_at_path(path);
        let mut out: Vec<Id> = Vec::new();
        let mut i: usize = 0;
        while i < found.len()
            invariant
                i <= found@.len(),
                out@.len() == i,
                forall|j: int| 0 <= j < i ==> out@[j] == #[trigger] found@[j].0,
            decreases found@.len() - i,
        {
            out.push(found[i].0);
            i = i + 1;
        }
        proof {
            assert forall|i1: int, j1: int| 0 <= i1 < j1 < out@.len() implies out@[i1].abs()
                < out@[j1].abs() by {
                assert(out@[i1] == found@[i1].0);
                assert(out@[j1] == found@[j1].0);
            }
            assert forall|j: int| 0 <= j < out@.len() implies self@.contains_key(
                #[trigger] out@[j].abs(),
            ) && self@[out@[j].abs()].contains_key(path@) by {
                assert(out@[j] == found@[j].0);
                assert(self@.contains_key(found@[j].0.abs()));
            }
            assert forall|k: int|
                self@.contains_key(k) && #[trigger] self@[k].contains_key(path@) implies exists|
                j: int,
            | 0 <= j < out@.len() && out@[j].abs() == k by {
                assert(kv_map(found@).contains_key(k));
                lemma_kv_some_match(found@, k);
                let j = choose|j: int| 0 <= j < found@.len() && found@[j].0.abs() == k;
                assert(out@[j].abs() == k);
            }
        }
        out
    }
}

impl<Id: OrdKey> Default for InboundMessage<Id> {
    /// An inbound view with no neighbour.
    fn default() -> (r: Self)
        ensures
            r@ == Map::<int, Map<Seq<Seq<char>>, Seq<u8>>>::empty(),
    {
        let r = InboundMessage { entries: Vec::new() };
        proof {
            assert(r@ =~= Map::<int, Map<Seq<Seq<char>>, Seq<u8>>>::empty());
        }
        r
    }
}

} // verus!
