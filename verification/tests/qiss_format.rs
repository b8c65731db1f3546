use messaging_kernel::qiss::codec::{QissCodec, QissSyncCodec};
use messaging_kernel::qiss::serializer::{QissDeserializer, QissSerializer};

#[test]
fn test_async_codec() {
    let codec = QissCodec;
    let original = vec![1u32, 2, 3, 4, 5];

    let buffer = codec.encode(&original).unwrap();
    let decoded: Vec<u32> = codec.decode(&buffer).unwrap();

    assert_eq!(decoded, original);
}

#[test]
fn test_sync_codec() {
    let codec = QissSyncCodec;
    let original = "Hello, Qiss!".to_string();

    let buffer = codec.encode(&original).unwrap();
    let decoded: String = codec.decode(&buffer).unwrap();

    assert_eq!(decoded, original);
}

#[test]
fn test_basic_serialization() {
    let mut serializer = QissSerializer::new();
    let data = serializer.serialize(&42u32).unwrap();

    let value: u32 = QissDeserializer::deserialize(&data).unwrap();

    assert_eq!(value, 42);
}

#[test]
fn test_string_serialization() {
    let mut serializer = QissSerializer::new();
    let original = "Hello, Qiss!".to_string();
    let data = serializer.serialize(&original).unwrap();

    let deserialized: String = QissDeserializer::deserialize(&data).unwrap();

    assert_eq!(deserialized, original);
}

#[test]
fn test_vec_serialization() {
    let mut serializer = QissSerializer::new();
    let original = vec![1u32, 2, 3, 4, 5];
    let data = serializer.serialize(&original).unwrap();

    let deserialized: Vec<u32> = QissDeserializer::deserialize(&data).unwrap();

    assert_eq!(deserialized, original);
}

#[test]
fn test_option_serialization() {
    let mut serializer = QissSerializer::new();

    let some_value = Some(42u32);
    let data = serializer.serialize(&some_value).unwrap();
    let deserialized: Option<u32> = QissDeserializer::deserialize(&data).unwrap();
    assert_eq!(deserialized, some_value);

    let none_value: Option<u32> = None;
    let data = serializer.serialize(&none_value).unwrap();
    let deserialized: Option<u32> = QissDeserializer::deserialize(&data).unwrap();
    assert_eq!(deserialized, none_value);
}

#[test]
fn batches_read_back_what_was_written() {
    let codec = QissCodec;
    let values = vec!["one".to_string(), "two".to_string(), String::new()];
    let buffer = codec.encode_batch(&values).unwrap();
    assert_eq!(&buffer[0..4], &3u32.to_le_bytes());
    let decoded: Vec<String> = codec.decode_batch(&buffer).unwrap();
    assert_eq!(decoded, values);

    let empty: Vec<u32> = Vec::new();
    let buffer = codec.encode_batch(&empty).unwrap();
    assert_eq!(buffer, vec![0, 0, 0, 0]);
    assert!(codec.decode_batch::<u32>(&buffer).unwrap().is_empty());

    // A batch cut short fails.
    let buffer = codec.encode_batch(&vec![7u32, 8]).unwrap();
    assert!(codec.decode_batch::<u32>(&buffer[..buffer.len() - 1]).is_err());
    assert!(codec.decode_batch::<u32>(&buffer[..3]).is_err());
}

#[test]
fn a_changed_body_byte_is_caught_by_the_checksum() {
    let mut serializer = QissSerializer::new();
    let data = serializer.serialize(&42u32).unwrap().to_vec();
    assert_eq!(&data[16..], &[42, 0, 0, 0]);
    // CRC-32 (IEEE) of the body.
    assert_eq!(&data[12..16], &0xeecb9046u32.to_le_bytes());

    let mut changed = data.clone();
    changed[16] = 43;
    match QissDeserializer::deserialize::<u32>(&changed) {
        Err(messaging_kernel::qiss::error::Error::ChecksumMismatch { expected, actual }) => {
            assert_eq!(expected, 0xeecb9046);
            assert_eq!(actual, 0x5677f723);
        }
        other => panic!("unexpected {:?}", other),
    }
    for k in 0..16 {
        assert!(matches!(
            QissDeserializer::deserialize::<u32>(&data[..k]),
            Err(messaging_kernel::qiss::error::Error::InsufficientData)
        ));
    }
}
