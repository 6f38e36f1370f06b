//! A little-endian binary codec, verified end to end: integers travel as
//! four bytes, least significant first.  Its round trip is proved, not
//! assumed.

use vstd::prelude::*;

use crate::serializer::Serializer;

verus! {

/// The four little-endian bytes of a `u32`.
pub open spec fn le_bytes(x: u32) -> Seq<u8> {
    seq![
        (x & 0xff) as u8,
        ((x >> 8) & 0xff) as u8,
        ((x >> 16) & 0xff) as u8,
        ((x >> 24) & 0xff) as u8,
    ]
}

/// The `u32` four little-endian bytes denote.
pub open spec fn le_value(b: Seq<u8>) -> u32 {
    (b[0] as u32) | ((b[1] as u32) << 8) | ((b[2] as u32) << 16) | ((b[3] as u32) << 24)
}

/// The little-endian bytes of a value denote the value.
pub proof fn lemma_le_round(x: u32)
    ensures
        le_value(le_bytes(x)) == x,
{
    assert((((x & 0xff) as u8) as u32) | (((((x >> 8) & 0xff) as u8) as u32) << 8) | (((((x >> 16)
        & 0xff) as u8) as u32) << 16) | (((((x >> 24) & 0xff) as u8) as u32) << 24) == x)
        by (bit_vector);
}

/// Serializes integers as four little-endian bytes.
#[derive(Debug, Clone, Copy, PartialEq, Eq)]
pub struct LeSerializer;

impl Serializer<u32> for LeSerializer {
    open spec fn enc_ok(&self, v: u32) -> bool {
        true
    }

    open spec fn enc(&self, v: u32) -> Seq<u8> {
        le_bytes(v)
    }

    open spec fn dec(&self, b: Seq<u8>) -> Option<u32> {
        if b.len() == 4 {
            Some(le_value(b))
        } else {
            None
        }
    }

    fn serialize(&self, v: &u32) -> (r: Result<Vec<u8>, String>) {
        let x: u32 = *v;
        proof {
            assert(x & 0xff < 256 && (x >> 8) & 0xff < 256 && (x >> 16) & 0xff < 256 && (x >> 24)
                & 0xff < 256) by (bit_vector);
        }
        let mut out: Vec<u8> = Vec::new();
        out.push((x & 0xff) as u8);
        out.push(((x >> 8) & 0xff) as u8);
        out.push(((x >> 16) & 0xff) as u8);
        out.push(((x >> 24) & 0xff) as u8);
        proof {
            assert(out@ =~= le_bytes(x));
        }
        Ok(out)
    }

    fn deserialize(&self, b: &[u8]) -> (r: Result<u32, String>) {
        if b.len() != 4 {
            proof {
                assert forall|v: u32| b@ != #[trigger] le_bytes(v) by {
                    assert(le_bytes(v).len() == 4);
                }
            }
            let mut message = String::new();
            message.append("expected four bytes");
            return Err(message);
        }
        let w: u32 = (b[0] as u32) | ((b[1] as u32) << 8) | ((b[2] as u32) << 16) | ((b[3]
            as u32) << 24);
        proof {
            assert(w == le_value(b@));
            assert forall|v: u32| b@ == #[trigger] le_bytes(v) implies w == v by {
                lemma_le_round(v);
            }
        }
        Ok(w)
    }
}

impl Serializer<i32> for LeSerializer {
    open spec fn enc_ok(&self, v: i32) -> bool {
        true
    }

    open spec fn enc(&self, v: i32) -> Seq<u8> {
        le_bytes(v as u32)
    }

    open spec fn dec(&self, b: Seq<u8>) -> Option<i32> {
        if b.len() == 4 {
            Some(le_value(b) as i32)
        } else {
            None
        }
    }

    fn serialize(&self, v: &i32) -> (r: Result<Vec<u8>, String>) {
        let unsigned: u32 = *v as u32;
        Serializer::<u32>::serialize(&LeSerializer, &unsigned)
    }

    fn deserialize(&self, b: &[u8]) -> (r: Result<i32, String>) {
        match Serializer::<u32>::deserialize(&LeSerializer, b) {
            Ok(w) => {
                proof {
                    assert forall|v: i32| b@ == #[trigger] le_bytes(v as u32) implies w as i32 == v by {
                        lemma_le_round(v as u32);
                        assert((v as u32) as i32 == v) by (bit_vector);
                    }
                }
                Ok(w as i32)
            },
            Err(e) => Err(e),
        }
    }
}

} // verus!
