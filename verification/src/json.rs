//! The JSON codec: `Serializer` implementations backed by `serde_json`.
//!
//! What `serde_json` produces and parses is named, not restated: the
//! `json_enc_*` / `json_dec_*` functions stand for the bytes the library
//! writes for a value and the value it parses from bytes, both functions of
//! their argument alone.

use vstd::prelude::*;

use crate::serializer::Serializer;

verus! {

/// The bytes `serde_json` writes for an `i32`.
pub uninterp spec fn json_enc_i32(v: i32) -> Seq<u8>;

/// The `i32` that `serde_json` parses from the bytes, if it parses one.
pub uninterp spec fn json_dec_i32(b: Seq<u8>) -> Option<i32>;

/// The bytes `serde_json` writes for a `u32`.
pub uninterp spec fn json_enc_u32(v: u32) -> Seq<u8>;

/// The `u32` that `serde_json` parses from the bytes, if it parses one.
pub uninterp spec fn json_dec_u32(b: Seq<u8>) -> Option<u32>;

/// Relies on serde_json::to_vec: writing an integer to a byte vector cannot
/// fail, and the bytes written depend on the value alone.
#[verifier::external_body]
fn json_to_vec_i32(v: &i32) -> (r: Result<Vec<u8>, String>)
    ensures
        r is Ok,
        r matches Ok(b) ==> b@ == json_enc_i32(*v),
{
    match serde_json::to_vec(v) {
        Ok(b) => Ok(b),
        Err(e) => Err(e.to_string()),
    }
}

/// Relies on serde_json::from_slice: parsing depends on the bytes alone,
/// and parsing the bytes serde_json wrote for an integer gives that integer
/// back.
#[verifier::external_body]
fn json_from_slice_i32(b: &[u8]) -> (r: Result<i32, String>)
    ensures
        r matches Ok(w) ==> json_dec_i32(b@) == Some(w),
        r matches Err(e) ==> json_dec_i32(b@) is None,
        r matches Err(e) ==> forall|v: i32| b@ != json_enc_i32(v),
        r matches Ok(w) ==> forall|v: i32| b@ == json_enc_i32(v) ==> w == v,
{
    match serde_json::from_slice::<i32>(b) {
        Ok(v) => Ok(v),
        Err(e) => Err(e.to_string()),
    }
}

/// Relies on serde_json::to_vec: writing an integer to a byte vector cannot
/// fail, and the bytes written depend on the value alone.
#[verifier::external_body]
fn json_to_vec_u32(v: &u32) -> (r: Result<Vec<u8>, String>)
    ensures
        r is Ok,
        r matches Ok(b) ==> b@ == json_enc_u32(*v),
{
    match serde_json::to_vec(v) {
        Ok(b) => Ok(b),
        Err(e) => Err(e.to_string()),
    }
}

/// Relies on serde_json::from_slice: parsing depends on the bytes alone,
/// and parsing the bytes serde_json wrote for an integer gives that integer
/// back.
#[verifier::external_body]
fn json_from_slice_u32(b: &[u8]) -> (r: Result<u32, String>)
    ensures
        r matches Ok(w) ==> json_dec_u32(b@) == Some(w),
        r matches Err(e) ==> json_dec_u32(b@) is None,
        r matches Err(e) ==> forall|v: u32| b@ != json_enc_u32(v),
        r matches Ok(w) ==> forall|v: u32| b@ == json_enc_u32(v) ==> w == v,
{
    match serde_json::from_slice::<u32>(b) {
        Ok(v) => Ok(v),
        Err(e) => Err(e.to_string()),
    }
}

/// Serializes values as JSON text through `serde_json`.
#[derive(Debug, Clone, Copy, PartialEq, Eq)]
pub struct JsonSerializer;

impl Serializer<i32> for JsonSerializer {
    open spec fn enc_ok(&self, v: i32) -> bool {
        true
    }

    open spec fn enc(&self, v: i32) -> Seq<u8> {
        json_enc_i32(v)
    }

    open spec fn dec(&self, b: Seq<u8>) -> Option<i32> {
        json_dec_i32(b)
    }

    fn serialize(&self, v: &i32) -> (r: Result<Vec<u8>, String>) {
        json_to_vec_i32(v)
    }

    fn deserialize(&self, b: &[u8]) -> (r: Result<i32, String>) {
        json_from_slice_i32(b)
    }
}

impl Serializer<u32> for JsonSerializer {
    open spec fn enc_ok(&self, v: u32) -> bool {
        true
    }

    open spec fn enc(&self, v: u32) -> Seq<u8> {
        json_enc_u32(v)
    }

    open spec fn dec(&self, b: Seq<u8>) -> Option<u32> {
        json_dec_u32(b)
    }

    fn serialize(&self, v: &u32) -> (r: Result<Vec<u8>, String>) {
        json_to_vec_u32(v)
    }

    fn deserialize(&self, b: &[u8]) -> (r: Result<u32, String>) {
        json_from_slice_u32(b)
    }
}

} // verus!
