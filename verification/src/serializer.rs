//! The pluggable codec for values transiting the wire.
//!
//! An implementation fixes, per value type, which values it can encode
//! (`enc_ok`), the bytes a value encodes to (`enc`), and the value a byte
//! string decodes to (`dec`).  Encoding is deterministic: equal values give
//! equal bytes.  Every implementation must honour the round trip: bytes
//! produced by `serialize` decode to the value that was serialized.

use vstd::prelude::*;

verus! {

/// A codec for values of type `V`.
pub trait Serializer<V>: Sized {
    /// Whether the codec can encode the value.
    spec fn enc_ok(&self, v: V) -> bool;

    /// The bytes a successful encoding of the value yields.
    spec fn enc(&self, v: V) -> Seq<u8>;

    /// The value the bytes decode to, if they decode at all.
    spec fn dec(&self, b: Seq<u8>) -> Option<V>;

    /// Encodes the value: exactly the encodable values give bytes, and the
    /// bytes are the value's encoding.
    fn serialize(&self, v: &V) -> (r: Result<Vec<u8>, String>)
        ensures
            <Self as Serializer<V>>::enc_ok(self, *v) ==> (r matches Ok(b) && b@ == <Self as Serializer<V>>::enc(self, *v)),
            !<Self as Serializer<V>>::enc_ok(self, *v) ==> r is Err,
    ;

    /// Decodes the bytes: success returns what the bytes decode to, and the
    /// encoding of any encodable value decodes back to that value.
    fn deserialize(&self, b: &[u8]) -> (r: Result<V, String>)
        ensures
            (r matches Ok(w) ==> <Self as Serializer<V>>::dec(self, b@) == Some(w)),
            (r is Err ==> <Self as Serializer<V>>::dec(self, b@) is None),
            forall|v: V|
                <Self as Serializer<V>>::enc_ok(self, v) && b@ == <Self as Serializer<V>>::enc(self, v) ==> (r matches Ok(w) && w == v),
    ;
}

/// Serializing a value and deserializing the bytes gives the value back:
/// the call returns `Ok` exactly on the values the codec can encode, and
/// then returns the value that went in.
pub fn round_trip<V, S: Serializer<V>>(serializer: &S, value: &V) -> (r: Result<V, String>)
    ensures
        <S as Serializer<V>>::enc_ok(serializer, *value) ==> (r matches Ok(w) && w == *value),
        !<S as Serializer<V>>::enc_ok(serializer, *value) ==> r is Err,
{
    match serializer.serialize(value) {
        Ok(bytes) => serializer.deserialize(bytes.as_slice()),
        Err(e) => Err(e),
    }
}

} // verus!
