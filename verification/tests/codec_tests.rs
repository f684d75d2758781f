use player_mover::codec::{compress, decompress};
use player_mover::nbt::{Doc, Tag};
use player_mover::wire::{decode_document, encode_document};
use player_mover::ToolError;

fn b(s: &str) -> Vec<u8> {
    s.as_bytes().to_vec()
}

fn sample_doc() -> Doc {
    vec![
        (b("aByte"), Tag::Byte(0x7f)),
        (b("aShort"), Tag::Short(0x1234)),
        (b("anInt"), Tag::Int(0xdead_beef)),
        (b("aLong"), Tag::Long(0x0123_4567_89ab_cdef)),
        (b("aFloat"), Tag::Float(1.5f32.to_bits())),
        (b("aDouble"), Tag::Double(2.25f64.to_bits())),
        (b("bytes"), Tag::ByteArray(vec![1, 2, 3, 255])),
        (b("text"), Tag::Str(b("hello world"))),
        (
            b("doubles"),
            Tag::List(vec![
                Tag::Double(1.0f64.to_bits()),
                Tag::Double(2.0f64.to_bits()),
            ]),
        ),
        (
            b("nested"),
            Tag::Compound(vec![
                (b("inner"), Tag::Int(7)),
                (b("empty"), Tag::List(vec![])),
            ]),
        ),
        (b("ints"), Tag::IntArray(vec![1, 2, 3])),
        (b("longs"), Tag::LongArray(vec![4, 5, 6])),
    ]
}

#[test]
fn document_round_trip() {
    let doc = sample_doc();
    let bytes = encode_document(&doc);
    let back = decode_document(&bytes).unwrap();
    assert_eq!(back, sample_doc());
}

#[test]
fn decode_rejects_wrong_root() {
    // Root must be a compound marker.
    let bytes = vec![1u8, 0, 0, 0];
    assert_eq!(decode_document(&bytes), Err(ToolError::SchemaError));
}

#[test]
fn decode_rejects_truncated() {
    let doc = sample_doc();
    let mut bytes = encode_document(&doc);
    bytes.pop();
    assert_eq!(decode_document(&bytes), Err(ToolError::SchemaError));
}

#[test]
fn decode_rejects_trailing_bytes() {
    let doc = sample_doc();
    let mut bytes = encode_document(&doc);
    bytes.push(0);
    assert_eq!(decode_document(&bytes), Err(ToolError::SchemaError));
}

#[test]
fn decode_rejects_unknown_tag_kind() {
    // Root compound with one field of kind 13, which does not exist.
    let bytes = vec![10u8, 0, 0, 13, 0, 1, 120, 0, 0];
    assert_eq!(decode_document(&bytes), Err(ToolError::SchemaError));
}

#[test]
fn gzip_round_trip() {
    let payload = b("some payload that should compress and come back unchanged");
    let packed = compress(&payload);
    assert_ne!(packed, payload);
    let unpacked = decompress(&packed).unwrap();
    assert_eq!(unpacked, payload);
}

#[test]
fn decompress_rejects_garbage() {
    let garbage = b("this is not a gzip stream");
    assert_eq!(decompress(&garbage), Err(ToolError::CorruptData));
}

#[test]
fn decompress_rejects_truncated_stream() {
    let payload = b("a longer payload so truncation is detectable by the stream reader");
    let mut packed = compress(&payload);
    packed.truncate(packed.len() / 2);
    assert_eq!(decompress(&packed), Err(ToolError::CorruptData));
}

#[test]
fn encoded_document_matches_reference_parser() {
    let doc = sample_doc();
    let bytes = encode_document(&doc);
    let value: fastnbt::Value = fastnbt::from_bytes(&bytes).unwrap();
    match value {
        fastnbt::Value::Compound(map) => {
            assert_eq!(map.get("anInt"), Some(&fastnbt::Value::Int(0xdead_beefu32 as i32)));
            assert_eq!(map.get("text"), Some(&fastnbt::Value::String("hello world".to_string())));
            assert_eq!(map.get("aDouble"), Some(&fastnbt::Value::Double(2.25)));
        }
        _ => panic!("root is not a compound"),
    }
}
