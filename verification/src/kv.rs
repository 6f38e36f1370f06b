//! Association-list maps with abstract keys.
//!
//! The containers of this crate (traces, stores, message trees) hold their
//! entries in vectors of key/value pairs and are specified through `kv_map`,
//! the mapping such a vector denotes: the latest entry for a key wins.

use vstd::prelude::*;

use crate::path::Path;

verus! {

/// A key whose identity for lookups is an abstract value.
pub trait AbsKey: Sized {
    /// The abstract identity of a key.
    type Abs;

    spec fn abs(&self) -> Self::Abs;

    /// Whether two keys have the same identity.
    fn abs_eq(&self, other: &Self) -> (r: bool)
        ensures
            r == (self.abs() == other.abs()),
    ;
}

impl AbsKey for Path {
    type Abs = Seq<Seq<char>>;

    open spec fn abs(&self) -> Seq<Seq<char>> {
        self@
    }

    fn abs_eq(&self, other: &Self) -> (r: bool)
        ensures
            r == (self.abs() == other.abs()),
    {
        self.same_as(other)
    }
}

impl AbsKey for String {
    type Abs = Seq<char>;

    open spec fn abs(&self) -> Seq<char> {
        self@
    }

    fn abs_eq(&self, other: &Self) -> (r: bool)
        ensures
            r == (self.abs() == other.abs()),
    {
        self.eq(other)
    }
}

/// A key that is ordered through its abstract identity; device identifiers
/// are such keys, with the integer they denote as identity.
pub trait OrdKey: AbsKey<Abs = int> + Copy {
    /// Whether this key comes before the other.
    fn key_lt(&self, other: &Self) -> (r: bool)
        ensures
            r == (self.abs() < other.abs()),
    ;
}

impl AbsKey for u8 {
    type Abs = int;

    open spec fn abs(&self) -> int {
        *self as int
    }

    fn abs_eq(&self, other: &Self) -> (r: bool)
        ensures
            r == (self.abs() == other.abs()),
    {
        *self == *other
    }
}

impl OrdKey for u8 {
    fn key_lt(&self, other: &Self) -> (r: bool)
        ensures
            r == (self.abs() < other.abs()),
    {
        *self < *other
    }
}

impl AbsKey for u16 {
    type Abs = int;

    open spec fn abs(&self) -> int {
        *self as int
    }

    fn abs_eq(&self, other: &Self) -> (r: bool)
        ensures
            r == (self.abs() == other.abs()),
    {
        *self == *other
    }
}

impl OrdKey for u16 {
    fn key_lt(&self, other: &Self) -> (r: bool)
        ensures
            r == (self.abs() < other.abs()),
    {
        *self < *other
    }
}

impl AbsKey for u32 {
    type Abs = int;

    open spec fn abs(&self) -> int {
        *self as int
    }

    fn abs_eq(&self, other: &Self) -> (r: bool)
        ensures
            r == (self.abs() == other.abs()),
    {
        *self == *other
    }
}

impl OrdKey for u32 {
    fn key_lt(&self, other: &Self) -> (r: bool)
        ensures
            r == (self.abs() < other.abs()),
    {
        *self < *other
    }
}

impl AbsKey for u64 {
    type Abs = int;

    open spec fn abs(&self) -> int {
        *self as int
    }

    fn abs_eq(&self, other: &Self) -> (r: bool)
        ensures
            r == (self.abs() == other.abs()),
    {
        *self == *other
    }
}

impl OrdKey for u64 {
    fn key_lt(&self, other: &Self) -> (r: bool)
        ensures
            r == (self.abs() < other.abs()),
    {
        *self < *other
    }
}

impl AbsKey for usize {
    type Abs = int;

    open spec fn abs(&self) -> int {
        *self as int
    }

    fn abs_eq(&self, other: &Self) -> (r: bool)
        ensures
            r == (self.abs() == other.abs()),
    {
        *self == *other
    }
}

impl OrdKey for usize {
    fn key_lt(&self, other: &Self) -> (r: bool)
        ensures
            r == (self.abs() < other.abs()),
    {
        *self < *other
    }
}

impl AbsKey for i32 {
    type Abs = int;

    open spec fn abs(&self) -> int {
        *self as int
    }

    fn abs_eq(&self, other: &Self) -> (r: bool)
        ensures
            r == (self.abs() == other.abs()),
    {
        *self == *other
    }
}

impl OrdKey for i32 {
    fn key_lt(&self, other: &Self) -> (r: bool)
        ensures
            r == (self.abs() < other.abs()),
    {
        *self < *other
    }
}

impl AbsKey for i64 {
    type Abs = int;

    open spec fn abs(&self) -> int {
        *self as int
    }

    fn abs_eq(&self, other: &Self) -> (r: bool)
        ensures
            r == (self.abs() == other.abs()),
    {
        *self == *other
    }
}

impl OrdKey for i64 {
    fn key_lt(&self, other: &Self) -> (r: bool)
        ensures
            r == (self.abs() < other.abs()),
    {
        *self < *other
    }
}

/// The mapping an entry sequence denotes; a later entry overrides an
/// earlier one with the same key.
pub open spec fn kv_map<K: AbsKey, V>(s: Seq<(K, V)>) -> Map<K::Abs, V>
    decreases s.len(),
{
    if s.len() == 0 {
        Map::empty()
    } else {
        kv_map(s.drop_last()).insert(s.last().0.abs(), s.last().1)
    }
}

/// An entry that no later entry overrides gives the key its mapped value.
pub proof fn lemma_kv_last_match<K: AbsKey, V>(s: Seq<(K, V)>, i: int)
    requires
        0 <= i < s.len(),
        forall|j: int| i < j < s.len() ==> s[j].0.abs() != s[i].0.abs(),
    ensures
        kv_map(s).contains_key(s[i].0.abs()),
        kv_map(s)[s[i].0.abs()] == s[i].1,
    decreases s.len(),
{
    if i == s.len() - 1 {
        assert(s.last() == s[i]);
    } else {
        assert(s.last() == s[s.len() - 1]);
        assert(s.drop_last()[i] == s[i]);
        lemma_kv_last_match(s.drop_last(), i);
    }
}

/// A key matched by no entry is absent from the mapping.
pub proof fn lemma_kv_no_match<K: AbsKey, V>(s: Seq<(K, V)>, a: K::Abs)
    requires
        forall|j: int| 0 <= j < s.len() ==> s[j].0.abs() != a,
    ensures
        !kv_map(s).contains_key(a),
    decreases s.len(),
{
    if s.len() > 0 {
        assert(s.last() == s[s.len() - 1]);
        lemma_kv_no_match(s.drop_last(), a);
    }
}

/// A key in the mapping is matched by some entry.
pub proof fn lemma_kv_some_match<K: AbsKey, V>(s: Seq<(K, V)>, a: K::Abs)
    requires
        kv_map(s).contains_key(a),
    ensures
        exists|j: int| 0 <= j < s.len() && s[j].0.abs() == a,
    decreases s.len(),
{
    if s.len() > 0 {
        if s.last().0.abs() == a {
            assert(s[s.len() - 1].0.abs() == a);
        } else {
            lemma_kv_some_match(s.drop_last(), a);
            let j = choose|j: int| 0 <= j < s.drop_last().len() && s.drop_last()[j].0.abs() == a;
            assert(s[j].0.abs() == a);
        }
    }
}

/// Replacing the latest entry for a key updates the mapping at that key.
pub proof fn lemma_kv_update_last<K: AbsKey, V>(s: Seq<(K, V)>, i: int, e: (K, V))
    requires
        0 <= i < s.len(),
        e.0.abs() == s[i].0.abs(),
        forall|j: int| i < j < s.len() ==> s[j].0.abs() != s[i].0.abs(),
    ensures
        kv_map(s.update(i, e)) == kv_map(s).insert(e.0.abs(), e.1),
    decreases s.len(),
{
    let t = s.update(i, e);
    if i == s.len() - 1 {
        assert(t.drop_last() =~= s.drop_last());
        assert(t.last() == e);
        assert(s.last() == s[i]);
        assert(kv_map(t) =~= kv_map(s).insert(e.0.abs(), e.1));
    } else {
        assert(t.drop_last() =~= s.drop_last().update(i, e));
        assert(t.last() == s.last());
        assert(s.last() == s[s.len() - 1]);
        assert(forall|j: int|
            i < j < s.drop_last().len() ==> s.drop_last()[j].0.abs() != s.drop_last()[i].0.abs());
        lemma_kv_update_last(s.drop_last(), i, e);
        assert(kv_map(t) =~= kv_map(s).insert(e.0.abs(), e.1));
    }
}

/// The index of the latest entry for a key, if any entry matches it.
pub fn kv_find_last<K: AbsKey, V>(entries: &Vec<(K, V)>, key: &K) -> (r: Option<usize>)
    ensures
        match r {
            Some(i) => i < entries@.len() && entries@[i as int].0.abs() == key.abs() && forall|
                j: int,
            | i < j < entries@.len() ==> entries@[j].0.abs() != key.abs(),
            None => forall|j: int| 0 <= j < entries@.len() ==> entries@[j].0.abs() != key.abs(),
        },
{
    let mut i: usize = entries.len();
    while i > 0
        invariant
            i <= entries@.len(),
            forall|j: int| i <= j < entries@.len() ==> entries@[j].0.abs() != key.abs(),
        decreases i,
    {
        i = i - 1;
        if entries[i].0.abs_eq(key) {
            return Some(i);
        }
    }
    None
}

/// Looks a key up in the mapping the entries denote.
pub fn kv_get<'a, K: AbsKey, V>(entries: &'a Vec<(K, V)>, key: &K) -> (r: Option<&'a V>)
    ensures
        match r {
            Some(v) => kv_map(entries@).contains_key(key.abs()) && *v == kv_map(entries@)[key.abs()],
            None => !kv_map(entries@).contains_key(key.abs()),
        },
{
    match kv_find_last(entries, key) {
        Some(i) => {
            proof {
                lemma_kv_last_match(entries@, i as int);
            }
            Some(&entries[i].1)
        },
        None => {
            proof {
                lemma_kv_no_match(entries@, key.abs());
            }
            None
        },
    }
}

/// Whether any entry matches the key.
pub fn kv_contains<K: AbsKey, V>(entries: &Vec<(K, V)>, key: &K) -> (r: bool)
    ensures
        r == kv_map(entries@).contains_key(key.abs()),
{
    match kv_find_last(entries, key) {
        Some(i) => {
            proof {
                lemma_kv_last_match(entries@, i as int);
            }
            true
        },
        None => {
            proof {
                lemma_kv_no_match(entries@, key.abs());
            }
            false
        },
    }
}

/// Maps the key to the value, replacing the latest matching entry in place
/// or appending a new one.
pub fn kv_set<K: AbsKey, V>(entries: &mut Vec<(K, V)>, key: K, value: V)
    ensures
        kv_map(final(entries)@) == kv_map(old(entries)@).insert(key.abs(), value),
{
    let ghost s0 = entries@;
    let ghost ka = key.abs();
    match kv_find_last(entries, &key) {
        Some(i) => {
            proof {
                lemma_kv_update_last(s0, i as int, (key, value));
            }
            entries.set(i, (key, value));
        },
        None => {
            entries.push((key, value));
            proof {
                assert(entries@.drop_last() =~= s0);
                assert(kv_map(entries@) == kv_map(s0).insert(ka, value));
            }
        },
    }
}

/// Entries stand in strictly increasing key order (so keys are unique).
pub open spec fn kv_sorted<K: OrdKey, V>(s: Seq<(K, V)>) -> bool {
    forall|i: int, j: int| 0 <= i < j < s.len() ==> s[i].0.abs() < s[j].0.abs()
}

/// In a sorted entry sequence, each entry gives its key its mapped value.
pub proof fn lemma_kv_sorted_index<K: OrdKey, V>(s: Seq<(K, V)>, i: int)
    requires
        kv_sorted(s),
        0 <= i < s.len(),
    ensures
        kv_map(s).contains_key(s[i].0.abs()),
        kv_map(s)[s[i].0.abs()] == s[i].1,
{
    lemma_kv_last_match(s, i);
}

/// A sorted entry sequence has as many entries as its mapping has keys.
pub proof fn lemma_kv_sorted_dom_len<K: OrdKey, V>(s: Seq<(K, V)>)
    requires
        kv_sorted(s),
    ensures
        kv_map(s).dom().finite(),
        kv_map(s).dom().len() == s.len(),
    decreases s.len(),
{
    if s.len() > 0 {
        lemma_kv_sorted_dom_len(s.drop_last());
        lemma_kv_no_match(s.drop_last(), s.last().0.abs());
    }
}

/// Inserting an entry whose key no entry holds inserts the key into the
/// mapping, wherever the entry is placed.
proof fn lemma_kv_insert_fresh<K: AbsKey, V>(s: Seq<(K, V)>, p: int, e: (K, V))
    requires
        0 <= p <= s.len(),
        forall|j: int| 0 <= j < s.len() ==> s[j].0.abs() != e.0.abs(),
    ensures
        kv_map(s.insert(p, e)) == kv_map(s).insert(e.0.abs(), e.1),
    decreases s.len(),
{
    let t = s.insert(p, e);
    if p == s.len() {
        assert(t.drop_last() =~= s);
        assert(t.last() == e);
    } else {
        assert(t.last() == s.last());
        assert(t.drop_last() =~= s.drop_last().insert(p, e));
        assert(s.last() == s[s.len() - 1]);
        lemma_kv_insert_fresh(s.drop_last(), p, e);
        assert(kv_map(t) =~= kv_map(s).insert(e.0.abs(), e.1));
    }
}

/// Maps the key to the value while keeping the entries sorted.
pub fn kv_sorted_set<K: OrdKey, V>(entries: &mut Vec<(K, V)>, key: K, value: V)
    requires
        kv_sorted(old(entries)@),
    ensures
        kv_sorted(final(entries)@),
        kv_map(final(entries)@) == kv_map(old(entries)@).insert(key.abs(), value),
{
    let ghost s0 = entries@;
    let mut p: usize = 0;
    while p < entries.len() && entries[p].0.key_lt(&key)
        invariant
            p <= entries@.len(),
            kv_sorted(entries@),
            entries@ == s0,
            forall|j: int| 0 <= j < p ==> entries@[j].0.abs() < key.abs(),
        decreases entries@.len() - p,
    {
        p = p + 1;
    }
    if p < entries.len() && entries[p].0.abs_eq(&key) {
        proof {
            lemma_kv_update_last(s0, p as int, (key, value));
        }
        entries.set(p, (key, value));
        proof {
            assert(forall|i: int, j: int|
                0 <= i < j < entries@.len() ==> entries@[i].0.abs() < entries@[j].0.abs());
        }
    } else {
        proof {
            assert forall|j: int| p <= j < s0.len() implies s0[j].0.abs() > key.abs() by {
                if j > p {
                    assert(s0[p as int].0.abs() < s0[j].0.abs());
                }
            }
            assert(forall|j: int| 0 <= j < s0.len() ==> s0[j].0.abs() != key.abs());
            lemma_kv_insert_fresh(s0, p as int, (key, value));
        }
        entries.insert(p, (key, value));
        proof {
            let t = entries@;
            assert forall|i: int, j: int| 0 <= i < j < t.len() implies t[i].0.abs()
                < t[j].0.abs() by {
                if j < p {
                    assert(t[i] == s0[i] && t[j] == s0[j]);
                } else if i > p {
                    assert(t[i] == s0[i - 1] && t[j] == s0[j - 1]);
                } else if i < p && j == p {
                    assert(t[i] == s0[i]);
                } else if i == p {
                    assert(t[j] == s0[j - 1]);
                } else if i < p && j > p {
                    assert(t[i] == s0[i] && t[j] == s0[j - 1]);
                }
            }
        }
    }
}

} // verus!
