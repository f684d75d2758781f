use player_mover::dat::{get_spawn_point, player_from_doc, player_to_doc};
use player_mover::codec::compress;
use player_mover::nbt::{Doc, Tag};
use player_mover::wire::encode_document;
use player_mover::ToolError;

fn b(s: &str) -> Vec<u8> {
    s.as_bytes().to_vec()
}

fn pos_list(x: f64, y: f64, z: f64) -> Tag {
    Tag::List(vec![
        Tag::Double(x.to_bits()),
        Tag::Double(y.to_bits()),
        Tag::Double(z.to_bits()),
    ])
}

fn player_doc_with_extras() -> Doc {
    vec![
        (b("Health"), Tag::Float(20.0f32.to_bits())),
        (b("Pos"), pos_list(1.0, 2.0, 3.0)),
        (b("Inventory"), Tag::List(vec![])),
        (b("Dimension"), Tag::Str(b("minecraft:the_end"))),
        (b("XpLevel"), Tag::Int(30)),
    ]
}

#[test]
fn player_decode_reads_modeled_fields() {
    let p = player_from_doc(player_doc_with_extras()).unwrap();
    assert_eq!(p.pos, (1.0f64.to_bits(), 2.0f64.to_bits(), 3.0f64.to_bits()));
    assert_eq!(p.dimension, b("minecraft:the_end"));
}

#[test]
fn player_decode_requires_pos_shape() {
    let doc = vec![
        (b("Pos"), Tag::List(vec![Tag::Double(0), Tag::Double(0)])),
        (b("Dimension"), Tag::Str(b("minecraft:overworld"))),
    ];
    assert_eq!(player_from_doc(doc), Err(ToolError::SchemaError));
}

#[test]
fn player_decode_requires_dimension() {
    let doc = vec![(b("Pos"), pos_list(0.0, 0.0, 0.0))];
    assert_eq!(player_from_doc(doc), Err(ToolError::SchemaError));
}

#[test]
fn opaque_fields_survive_a_mutation() {
    let mut p = player_from_doc(player_doc_with_extras()).unwrap();
    p.set_position_dimension(
        (9.0f64.to_bits(), 8.0f64.to_bits(), 7.0f64.to_bits()),
        b("minecraft:overworld"),
    );
    let out = player_to_doc(p);
    let find = |key: &str| out.iter().find(|f| f.0 == b(key)).map(|f| &f.1);
    // The untouched keys keep their decoded values exactly.
    assert_eq!(find("Health"), Some(&Tag::Float(20.0f32.to_bits())));
    assert_eq!(find("Inventory"), Some(&Tag::List(vec![])));
    assert_eq!(find("XpLevel"), Some(&Tag::Int(30)));
    // The two modeled keys carry the new values.
    assert_eq!(find("Pos"), Some(&pos_list(9.0, 8.0, 7.0)));
    assert_eq!(find("Dimension"), Some(&Tag::Str(b("minecraft:overworld"))));
}

#[test]
fn spawn_point_reads_data_fields() {
    let data = vec![
        (b("SpawnX"), Tag::Int(100)),
        (b("SpawnY"), Tag::Int(64)),
        (b("SpawnZ"), Tag::Int((-50i32) as u32)),
    ];
    let doc: Doc = vec![(b("Data"), Tag::Compound(data))];
    let file = compress(&encode_document(&doc));
    assert_eq!(get_spawn_point(&file), Ok((100, 64, -50)));
}

#[test]
fn spawn_point_rejects_corrupt_stream() {
    let garbage = b("not gzip at all");
    assert_eq!(get_spawn_point(&garbage), Err(ToolError::CorruptData));
}

#[test]
fn spawn_point_rejects_missing_fields() {
    let doc: Doc = vec![(b("Data"), Tag::Compound(vec![(b("SpawnX"), Tag::Int(1))]))];
    let file = compress(&encode_document(&doc));
    assert_eq!(get_spawn_point(&file), Err(ToolError::SchemaError));
}
