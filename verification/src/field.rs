//! Fields: values indexed by neighbour identity with a local default.
//!
//! A field holds the local device's value as its default, plus the values
//! the aligned neighbours supplied, keyed by their identifiers.  Pointwise
//! combination is restricted to neighbours present in both fields.

use vstd::prelude::*;

use crate::kv::AbsKey;
use crate::kv::OrdKey;
use crate::kv::kv_get;
use crate::kv::kv_map;
use crate::kv::kv_sorted;
use crate::kv::lemma_kv_sorted_dom_len;
use crate::kv::kv_sorted_set;
use crate::kv::lemma_kv_some_match;
use crate::kv::lemma_kv_sorted_index;

verus! {

/// A local default plus per-neighbour overrides; the identifier of the
/// local device is never a key of the overrides.
#[derive(Debug, PartialEq, Eq)]
pub struct Field<Id: OrdKey, V> {
    default: V,
    overrides: Vec<(Id, V)>,
}

impl<Id: OrdKey, V> Field<Id, V> {
    #[verifier::type_invariant]
    spec fn wf(&self) -> bool {
        kv_sorted(self.overrides@)
    }

    /// The local device's value.
    pub closed spec fn local_spec(&self) -> V {
        self.default
    }

    /// The neighbours' values, keyed by the identifier each denotes.
    pub closed spec fn overrides_map(&self) -> Map<int, V> {
        kv_map(self.overrides@)
    }

    /// Builds a field from a default and override entries; a later entry
    /// for an identifier overrides an earlier one.
    pub fn new(default: V, overrides: Vec<(Id, V)>) -> (r: Self)
        ensures
            r.local_spec() == default,
            r.overrides_map() == kv_map(overrides@),
    {
        let ghost orig = overrides@;
        let mut src = overrides;
        let mut entries: Vec<(Id, V)> = Vec::new();
        while src.len() > 0
            invariant
                src@.len() <= orig.len(),
                src@ =~= orig.skip(orig.len() - src@.len()),
                kv_sorted(entries@),
                kv_map(entries@) == kv_map(orig.take(orig.len() - src@.len())),
            decreases src@.len(),
        {
            let ghost processed = orig.len() - src@.len();
            let e = src.remove(0);
            proof {
                assert(e == orig[processed]);
                assert(src@ =~= orig.skip(processed + 1));
                assert(orig.take(processed + 1).drop_last() =~= orig.take(processed));
                assert(orig.take(processed + 1).last() == orig[processed]);
            }
            kv_sorted_set(&mut entries, e.0, e.1);
        }
        proof {
            assert(orig.take(orig.len() as int) =~= orig);
        }
        Field { default, overrides: entries }
    }

    /// Builds a field from entries already in strictly increasing key order.
    pub(crate) fn from_sorted(default: V, overrides: Vec<(Id, V)>) -> (r: Self)
        requires
            kv_sorted(overrides@),
        ensures
            r.local_spec() == default,
            r.overrides_map() == kv_map(overrides@),
    {
        Field { default, overrides }
    }

    /// The local device's value.
    pub fn local(&self) -> (r: &V)
        ensures
            *r == self.local_spec(),
    {
        &self.default
    }

    /// The value a neighbour supplied, if it is present.
    pub fn get(&self, id: &Id) -> (r: Option<&V>)
        ensures
            match r {
                Some(v) => self.overrides_map().contains_key(id.abs()) && *v
                    == self.overrides_map()[id.abs()],
                None => !self.overrides_map().contains_key(id.abs()),
            },
    {
        proof {
            use_type_invariant(&*self);
        }
        kv_get(&self.overrides, id)
    }

    /// The override entries, in increasing identifier order: the
    /// deterministic iteration order for user folds.
    pub fn entries(&self) -> (r: &Vec<(Id, V)>)
        ensures
            kv_sorted(r@),
            kv_map(r@) == self.overrides_map(),
    {
        proof {
            use_type_invariant(&*self);
        }
        &self.overrides
    }

    /// One for the local device, plus one per neighbour.
    pub fn size(&self) -> (r: usize)
        requires
            self.overrides_map().dom().len() < usize::MAX,
        ensures
            r == 1 + self.overrides_map().dom().len(),
    {
        proof {
            use_type_invariant(&*self);
            lemma_kv_sorted_dom_len(self.overrides@);
        }
        1 + self.overrides.len()
    }

    /// Combines two fields pointwise: the defaults are combined, and the
    /// overrides keep exactly the neighbours present in both fields.
    pub fn aligned_map<V2, O, F: Fn(&V, &V2) -> O>(
        &self,
        other: &Field<Id, V2>,
        transform: F,
    ) -> (r: Field<Id, O>)
        requires
            call_requires(transform, (&self.local_spec(), &other.local_spec())),
            forall|k: int|
                #![trigger self.overrides_map().contains_key(k)]
                self.overrides_map().contains_key(k) && other.overrides_map().contains_key(k)
                    ==> call_requires(
                    transform,
                    (&self.overrides_map()[k], &other.overrides_map()[k]),
                ),
        ensures
            call_ensures(
                transform,
                (&self.local_spec(), &other.local_spec()),
                r.local_spec(),
            ),
            r.overrides_map().dom() == self.overrides_map().dom().intersect(
                other.overrides_map().dom(),
            ),
            forall|k: int|
                #![trigger r.overrides_map().contains_key(k)]
                r.overrides_map().contains_key(k) ==> call_ensures(
                    transform,
                    (&self.overrides_map()[k], &other.overrides_map()[k]),
                    r.overrides_map()[k],
                ),
    {
        proof {
            use_type_invariant(&*self);
            use_type_invariant(&*other);
        }
        let combined_default = transform(&self.default, &other.default);
        let mut out: Vec<(Id, O)> = Vec::new();
        let mut i: usize = 0;
        while i < self.overrides.len()
            invariant
                i <= self.overrides@.len(),
                kv_sorted(self.overrides@),
                kv_sorted(other.overrides@),
                forall|k: int|
                    #![trigger self.overrides_map().contains_key(k)]
                    self.overrides_map().contains_key(k) && other.overrides_map().contains_key(k)
                        ==> call_requires(
                        transform,
                        (&self.overrides_map()[k], &other.overrides_map()[k]),
                    ),
                forall|j: int|
                    #![trigger out@[j].0]
                    0 <= j < out@.len() ==> exists|i2: int|
                        0 <= i2 < i && out@[j].0.abs() == #[trigger] self.overrides@[i2].0.abs(),
                kv_sorted(out@),
                forall|j: int|
                    #![trigger out@[j]]
                    0 <= j < out@.len() ==> self.overrides_map().contains_key(out@[j].0.abs())
                        && other.overrides_map().contains_key(out@[j].0.abs()) && call_ensures(
                        transform,
                        (
                            &self.overrides_map()[out@[j].0.abs()],
                            &other.overrides_map()[out@[j].0.abs()],
                        ),
                        out@[j].1,
                    ),
                forall|i2: int|
                    0 <= i2 < i && other.overrides_map().contains_key(
                        #[trigger] self.overrides@[i2].0.abs(),
                    ) ==> kv_map(out@).contains_key(self.overrides@[i2].0.abs()),
            decreases self.overrides@.len() - i,
        {
            let id = self.overrides[i].0;
            proof {
                lemma_kv_sorted_index(self.overrides@, i as int);
            }
            let ghost out0 = out@;
            match kv_get(&other.overrides, &id) {
                Some(v2) => {
                    proof {
                        assert(self.overrides_map().contains_key(id.abs()));
                        assert(self.overrides_map()[id.abs()] == self.overrides@[i as int].1);
                        assert(other.overrides_map().contains_key(id.abs()));
                        assert(*v2 == other.overrides_map()[id.abs()]);
                    }
                    let o = transform(&self.overrides[i].1, v2);
                    proof {
                        assert forall|j: int| 0 <= j < out0.len() implies out0[j].0.abs()
                            < id.abs() by {
                            let i2 = choose|i2: int|
                                0 <= i2 < i && out0[j].0.abs() == #[trigger] self.overrides@[i2].0.abs();
                            assert(self.overrides@[i2].0.abs() < self.overrides@[i as int].0.abs());
                        }
                    }
                    out.push((id, o));
                    proof {
                        assert(out@.drop_last() =~= out0);
                        assert(forall|j: int|
                            0 <= j < out0.len() ==> out@[j] == out0[j]);
                    }
                },
                None => {},
            }
            i = i + 1;
            proof {
                assert forall|i2: int|
                    0 <= i2 < i && other.overrides_map().contains_key(
                        #[trigger] self.overrides@[i2].0.abs(),
                    ) implies kv_map(out@).contains_key(self.overrides@[i2].0.abs()) by {
                    if i2 + 1 < i {
                        assert(kv_map(out0).contains_key(self.overrides@[i2].0.abs()));
                        lemma_kv_some_match(out0, self.overrides@[i2].0.abs());
                        let j = choose|j: int|
                            0 <= j < out0.len() && out0[j].0.abs()
                                == self.overrides@[i2].0.abs();
                        crate::kv::lemma_kv_last_match(out@, j);
                    } else {
                        crate::kv::lemma_kv_last_match(out@, out@.len() - 1);
                    }
                }
            }
        }
        let r = Field { default: combined_default, overrides: out };
        proof {
            assert forall|k: int| #[trigger]
                r.overrides_map().dom().contains(k) implies self.overrides_map().dom().contains(k)
                && other.overrides_map().dom().contains(k) by {
                lemma_kv_some_match(r.overrides@, k);
            }
            assert forall|k: int|
                self.overrides_map().dom().contains(k) && other.overrides_map().dom().contains(
                    k,
                ) implies #[trigger] r.overrides_map().dom().contains(k) by {
                lemma_kv_some_match(self.overrides@, k);
            }
            assert(r.overrides_map().dom() =~= self.overrides_map().dom().intersect(
                other.overrides_map().dom(),
            ));
            assert forall|k: int| #[trigger]
                r.overrides_map().contains_key(k) implies call_ensures(
                transform,
                (&self.overrides_map()[k], &other.overrides_map()[k]),
                r.overrides_map()[k],
            ) by {
                lemma_kv_some_match(r.overrides@, k);
                let j = choose|j: int|
                    0 <= j < r.overrides@.len() && r.overrides@[j].0.abs() == k;
                lemma_kv_sorted_index(r.overrides@, j);
            }
        }
        r
    }
}

} // verus!
