use rufi::json::JsonSerializer;
use rufi::le::LeSerializer;
use rufi::serializer::Serializer;
use rufi::serializer::round_trip;

#[test]
fn test_serialize_deserialize_int() {
    let serializer = JsonSerializer;
    let value = 123i32;
    let bytes = Serializer::<i32>::serialize(&serializer, &value).expect("serialize ok");
    let result: i32 = Serializer::<i32>::deserialize(&serializer, &bytes).expect("deserialize ok");
    assert_eq!(value, result);
}

#[test]
fn json_round_trip_holds_for_unsigned_values() {
    let serializer = JsonSerializer;
    for value in [0u32, 1, 7, 4294967295] {
        assert_eq!(round_trip(&serializer, &value).unwrap(), value);
    }
}

#[test]
fn json_round_trip_holds_for_signed_values() {
    let serializer = JsonSerializer;
    for value in [i32::MIN, -1, 0, 42, i32::MAX] {
        assert_eq!(round_trip(&serializer, &value).unwrap(), value);
    }
}

#[test]
fn json_serializes_integers_as_decimal_text() {
    let bytes = Serializer::<i32>::serialize(&JsonSerializer, &-7i32).unwrap();
    assert_eq!(bytes, b"-7".to_vec());
}

#[test]
fn json_rejects_malformed_bytes() {
    let result = Serializer::<i32>::deserialize(&JsonSerializer, b"true");
    assert!(result.is_err());
}

#[test]
fn le_bytes_are_little_endian() {
    let bytes = Serializer::<u32>::serialize(&LeSerializer, &0x01020304u32).unwrap();
    assert_eq!(bytes, vec![4u8, 3u8, 2u8, 1u8]);
}

#[test]
fn le_round_trip_holds() {
    for value in [0u32, 1, 255, 256, 4294967295] {
        assert_eq!(round_trip(&LeSerializer, &value).unwrap(), value);
    }
    for value in [i32::MIN, -1, 0, 1, i32::MAX] {
        assert_eq!(round_trip(&LeSerializer, &value).unwrap(), value);
    }
}

#[test]
fn le_rejects_wrong_length() {
    assert!(Serializer::<u32>::deserialize(&LeSerializer, &[1u8, 2u8]).is_err());
    assert!(Serializer::<u32>::deserialize(&LeSerializer, &[]).is_err());
}
