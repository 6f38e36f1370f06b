//! The read-only view of what one neighbour emitted last round: a mapping
//! from path to the bytes the neighbour's serializer produced there.

use vstd::prelude::*;

use crate::kv::AbsKey;
use crate::kv::kv_contains;
use crate::kv::kv_get;
use crate::kv::kv_map;
use crate::path::Path;

verus! {

/// The abstract bytes a map of byte vectors holds.
pub open spec fn bytes_of<K>(m: Map<K, Vec<u8>>) -> Map<K, Seq<u8>> {
    Map::new(|k: K| m.contains_key(k), |k: K| m[k]@)
}

/// Copies a byte vector.
pub(crate) fn clone_bytes(v: &Vec<u8>) -> (r: Vec<u8>)
    ensures
        r@ == v@,
{
    let mut out: Vec<u8> = Vec::new();
    let mut i: usize = 0;
    while i < v.len()
        invariant
            i <= v@.len(),
            out@ =~= v@.take(i as int),
        decreases v@.len() - i,
    {
        out.push(v[i]);
        i = i + 1;
    }
    proof {
        assert(v@.take(v@.len() as int) =~= v@);
    }
    out
}

/// The values one neighbour emitted last round, keyed by path.
#[derive(Debug)]
pub struct ValueTree {
    entries: Vec<(Path, Vec<u8>)>,
}

impl View for ValueTree {
    type V = Map<Seq<Seq<char>>, Seq<u8>>;

    closed spec fn view(&self) -> Map<Seq<Seq<char>>, Seq<u8>> {
        bytes_of(kv_map(self.entries@))
    }
}

impl ValueTree {
    /// A tree with no entry.
    pub fn empty() -> (r: Self)
        ensures
            r@ == Map::<Seq<Seq<char>>, Seq<u8>>::empty(),
    {
        let r = ValueTree { entries: Vec::new() };
        proof {
            assert(r@ =~= Map::<Seq<Seq<char>>, Seq<u8>>::empty());
        }
        r
    }

    /// A tree holding the given entries; a later entry for a path overrides
    /// an earlier one.
    pub fn new(entries: Vec<(Path, Vec<u8>)>) -> (r: Self)
        ensures
            r@ == bytes_of(kv_map(entries@)),
    {
        ValueTree { entries }
    }

    /// Whether the neighbour emitted a value at the path.
    pub fn contains_key(&self, path: &Path) -> (r: bool)
        ensures
            r == self@.contains_key(path@),
    {
        kv_contains(&self.entries, path)
    }

    /// The bytes the neighbour emitted at the path, if any.
    pub fn get(&self, path: &Path) -> (r: Option<Vec<u8>>)
        ensures
            match r {
                Some(b) => self@.contains_key(path@) && b@ == self@[path@],
                None => !self@.contains_key(path@),
            },
    {
        match kv_get(&self.entries, path) {
            Some(b) => Some(clone_bytes(b)),
            None => None,
        }
    }
}

} // verus!
