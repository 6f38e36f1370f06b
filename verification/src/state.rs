//! The per-path persistent store.
//!
//! Each path holds one tagged value; the same path must carry the same value
//! type on every round.  Reading a path at a different type is a programmer
//! error and is reported as a `StateError` naming the path and the expected
//! type.

use vstd::prelude::*;

use crate::kv::AbsKey;
use crate::kv::kv_get;
use crate::kv::kv_map;
use crate::kv::kv_set;
use crate::path::Path;

verus! {

/// A tagged value the store can hold.
#[derive(Debug, PartialEq, Eq)]
pub enum StateValue {
    Bool(bool),
    U8(u8),
    U32(u32),
    U64(u64),
    I32(i32),
    I64(i64),
    Text(String),
}

/// The type a stored or expected value carries.
#[derive(Debug, PartialEq, Eq, Structural, Clone, Copy)]
pub enum StateTag {
    Bool,
    U8,
    U32,
    U64,
    I32,
    I64,
    Text,
}

/// A value type the per-path store can hold.
pub trait Storable: Sized {
    /// The tagged form of the value.
    spec fn wrap_spec(self) -> StateValue;

    /// The value a tagged form holds, if it is of this type.
    spec fn unwrap_spec(sv: StateValue) -> Option<Self>;

    /// The tag of this type.
    spec fn tag_spec() -> StateTag;

    fn wrap(&self) -> (r: StateValue)
        ensures
            r == self.wrap_spec(),
    ;

    fn unwrap(sv: &StateValue) -> (r: Option<Self>)
        ensures
            r == Self::unwrap_spec(*sv),
    ;

    fn tag() -> (r: StateTag)
        ensures
            r == Self::tag_spec(),
    ;

    /// Unwrapping a wrapped value gives the value back.
    proof fn lemma_wrap_unwrap(self)
        ensures
            Self::unwrap_spec(self.wrap_spec()) == Some(self),
    ;
}

impl Storable for bool {
    open spec fn wrap_spec(self) -> StateValue {
        StateValue::Bool(self)
    }

    open spec fn unwrap_spec(sv: StateValue) -> Option<bool> {
        match sv {
            StateValue::Bool(v) => Some(v),
            _ => None,
        }
    }

    open spec fn tag_spec() -> StateTag {
        StateTag::Bool
    }

    fn wrap(&self) -> (r: StateValue) {
        StateValue::Bool(*self)
    }

    fn unwrap(sv: &StateValue) -> (r: Option<bool>) {
        match sv {
            StateValue::Bool(v) => Some(*v),
            _ => None,
        }
    }

    fn tag() -> (r: StateTag) {
        StateTag::Bool
    }

    proof fn lemma_wrap_unwrap(self) {
    }
}

impl Storable for u8 {
    open spec fn wrap_spec(self) -> StateValue {
        StateValue::U8(self)
    }

    open spec fn unwrap_spec(sv: StateValue) -> Option<u8> {
        match sv {
            StateValue::U8(v) => Some(v),
            _ => None,
        }
    }

    open spec fn tag_spec() -> StateTag {
        StateTag::U8
    }

    fn wrap(&self) -> (r: StateValue) {
        StateValue::U8(*self)
    }

    fn unwrap(sv: &StateValue) -> (r: Option<u8>) {
        match sv {
            StateValue::U8(v) => Some(*v),
            _ => None,
        }
    }

    fn tag() -> (r: StateTag) {
        StateTag::U8
    }

    proof fn lemma_wrap_unwrap(self) {
    }
}

impl Storable for u32 {
    open spec fn wrap_spec(self) -> StateValue {
        StateValue::U32(self)
    }

    open spec fn unwrap_spec(sv: StateValue) -> Option<u32> {
        match sv {
            StateValue::U32(v) => Some(v),
            _ => None,
        }
    }

    open spec fn tag_spec() -> StateTag {
        StateTag::U32
    }

    fn wrap(&self) -> (r: StateValue) {
        StateValue::U32(*self)
    }

    fn unwrap(sv: &StateValue) -> (r: Option<u32>) {
        match sv {
            StateValue::U32(v) => Some(*v),
            _ => None,
        }
    }

    fn tag() -> (r: StateTag) {
        StateTag::U32
    }

    proof fn lemma_wrap_unwrap(self) {
    }
}

impl Storable for u64 {
    open spec fn wrap_spec(self) -> StateValue {
        StateValue::U64(self)
    }

    open spec fn unwrap_spec(sv: StateValue) -> Option<u64> {
        match sv {
            StateValue::U64(v) => Some(v),
            _ => None,
        }
    }

    open spec fn tag_spec() -> StateTag {
        StateTag::U64
    }

    fn wrap(&self) -> (r: StateValue) {
        StateValue::U64(*self)
    }

    fn unwrap(sv: &StateValue) -> (r: Option<u64>) {
        match sv {
            StateValue::U64(v) => Some(*v),
            _ => None,
        }
    }

    fn tag() -> (r: StateTag) {
        StateTag::U64
    }

    proof fn lemma_wrap_unwrap(self) {
    }
}

impl Storable for i32 {
    open spec fn wrap_spec(self) -> StateValue {
        StateValue::I32(self)
    }

    open spec fn unwrap_spec(sv: StateValue) -> Option<i32> {
        match sv {
            StateValue::I32(v) => Some(v),
            _ => None,
        }
    }

    open spec fn tag_spec() -> StateTag {
        StateTag::I32
    }

    fn wrap(&self) -> (r: StateValue) {
        StateValue::I32(*self)
    }

    fn unwrap(sv: &StateValue) -> (r: Option<i32>) {
        match sv {
            StateValue::I32(v) => Some(*v),
            _ => None,
        }
    }

    fn tag() -> (r: StateTag) {
        StateTag::I32
    }

    proof fn lemma_wrap_unwrap(self) {
    }
}

impl Storable for i64 {
    open spec fn wrap_spec(self) -> StateValue {
        StateValue::I64(self)
    }

    open spec fn unwrap_spec(sv: StateValue) -> Option<i64> {
        match sv {
            StateValue::I64(v) => Some(v),
            _ => None,
        }
    }

    open spec fn tag_spec() -> StateTag {
        StateTag::I64
    }

    fn wrap(&self) -> (r: StateValue) {
        StateValue::I64(*self)
    }

    fn unwrap(sv: &StateValue) -> (r: Option<i64>) {
        match sv {
            StateValue::I64(v) => Some(*v),
            _ => None,
        }
    }

    fn tag() -> (r: StateTag) {
        StateTag::I64
    }

    proof fn lemma_wrap_unwrap(self) {
    }
}

impl Storable for String {
    open spec fn wrap_spec(self) -> StateValue {
        StateValue::Text(self)
    }

    open spec fn unwrap_spec(sv: StateValue) -> Option<String> {
        match sv {
            StateValue::Text(v) => Some(v),
            _ => None,
        }
    }

    open spec fn tag_spec() -> StateTag {
        StateTag::Text
    }

    fn wrap(&self) -> (r: StateValue) {
        StateValue::Text(self.clone())
    }

    fn unwrap(sv: &StateValue) -> (r: Option<String>) {
        match sv {
            StateValue::Text(v) => Some(v.clone()),
            _ => None,
        }
    }

    fn tag() -> (r: StateTag) {
        StateTag::Text
    }

    proof fn lemma_wrap_unwrap(self) {
    }
}

/// The name of the type a tag stands for.
pub open spec fn tag_text(t: StateTag) -> Seq<char> {
    match t {
        StateTag::Bool => "bool"@,
        StateTag::U8 => "u8"@,
        StateTag::U32 => "u32"@,
        StateTag::U64 => "u64"@,
        StateTag::I32 => "i32"@,
        StateTag::I64 => "i64"@,
        StateTag::Text => "text"@,
    }
}

impl StateTag {
    /// The name of the type this tag stands for.
    pub fn name(&self) -> (r: &'static str)
        ensures
            r@ == tag_text(*self),
    {
        match self {
            StateTag::Bool => "bool",
            StateTag::U8 => "u8",
            StateTag::U32 => "u32",
            StateTag::U64 => "u64",
            StateTag::I32 => "i32",
            StateTag::I64 => "i64",
            StateTag::Text => "text",
        }
    }
}

/// The error a typed read reports when a path's stored value carries a
/// different type: the path read and the type that was expected.
#[derive(Debug, PartialEq, Eq)]
pub struct StateError {
    pub path: Path,
    pub expected: StateTag,
}

/// The words a type-mismatch error reports: the path and the expected type.
pub open spec fn mismatch_text(path: Seq<Seq<char>>, expected: StateTag) -> Seq<char> {
    "type mismatch at path "@ + crate::path::path_text(path) + ", expected "@ + tag_text(expected)
}

impl StateError {
    /// The error in words, naming the path and the expected type.
    pub fn describe(&self) -> (r: String)
        ensures
            r@ == mismatch_text(self.path@, self.expected),
    {
        let mut s = String::new();
        s.append("type mismatch at path ");
        let rendered = self.path.text();
        s.append(rendered.as_str());
        s.append(", expected ");
        s.append(self.expected.name());
        proof {
            assert(s@ =~= mismatch_text(self.path@, self.expected));
        }
        s
    }
}

/// The per-path persistent store of one virtual machine; it survives across
/// rounds.
#[derive(Debug)]
pub struct State {
    entries: Vec<(Path, StateValue)>,
}

impl View for State {
    type V = Map<Seq<Seq<char>>, StateValue>;

    closed spec fn view(&self) -> Map<Seq<Seq<char>>, StateValue> {
        kv_map(self.entries@)
    }
}

impl State {
    pub fn new() -> (r: Self)
        ensures
            r@ == Map::<Seq<Seq<char>>, StateValue>::empty(),
    {
        State { entries: Vec::new() }
    }

    /// Rebuilds a store from saved entries; a later entry for a path
    /// overrides an earlier one.
    pub fn from_snapshot(snapshot: Vec<(Path, StateValue)>) -> (r: Self)
        ensures
            r@ == kv_map(snapshot@),
    {
        State { entries: snapshot }
    }

    /// Whether the store holds no path.
    pub fn is_empty(&self) -> (r: bool)
        ensures
            r == (self@ == Map::<Seq<Seq<char>>, StateValue>::empty()),
    {
        if self.entries.len() == 0 {
            proof {
                assert(self@ =~= Map::<Seq<Seq<char>>, StateValue>::empty());
            }
            true
        } else {
            proof {
                assert(self@.contains_key(self.entries@.last().0.abs()));
            }
            false
        }
    }

    /// Overwrites whatever the path held with the given value.
    pub fn insert<V: Storable>(&mut self, path: Path, value: V)
        ensures
            final(self)@ == old(self)@.insert(path@, value.wrap_spec()),
    {
        let sv = value.wrap();
        kv_set(&mut self.entries, path, sv);
    }

    /// Overwrites whatever the path held with the given tagged value.
    pub fn insert_value(&mut self, path: Path, value: StateValue)
        ensures
            final(self)@ == old(self)@.insert(path@, value),
    {
        kv_set(&mut self.entries, path, value);
    }

    /// The value stored at the path, read at type `V`: nothing when the path
    /// is absent, the value when it is of type `V`, and a type-mismatch
    /// error naming the path and the expected type otherwise.
    pub fn get<V: Storable>(&self, path: &Path) -> (r: Result<Option<V>, StateError>)
        ensures
            !self@.contains_key(path@) ==> r == Ok::<Option<V>, StateError>(None),
            self@.contains_key(path@) ==> match V::unwrap_spec(self@[path@]) {
                Some(v) => r == Ok::<Option<V>, StateError>(Some(v)),
                None => r matches Err(e) && e.path@ == path@ && e.expected == V::tag_spec(),
            },
    {
        match kv_get(&self.entries, path) {
            None => Ok(None),
            Some(sv) => match V::unwrap(sv) {
                Some(v) => Ok(Some(v)),
                None => Err(StateError { path: path.clone(), expected: V::tag() }),
            },
        }
    }
}

impl Default for State {
    fn default() -> (r: Self)
        ensures
            r@ == Map::<Seq<Seq<char>>, StateValue>::empty(),
    {
        State::new()
    }
}

} // verus!
