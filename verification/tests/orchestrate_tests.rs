use std::collections::HashMap;

use player_mover::codec::{compress, decompress};
use player_mover::dat::get_spawn_point;
use player_mover::nbt::{Doc, Tag};
use player_mover::orchestrate::{backup_path, parse_pos, plan_move};
use player_mover::player::{MultiPlayer, SinglePlayer};
use player_mover::wire::encode_document;
use player_mover::ToolError;

fn b(s: &str) -> Vec<u8> {
    s.as_bytes().to_vec()
}

fn pos_list(x: f64, y: f64, z: f64) -> Tag {
    Tag::List(vec![
        Tag::Double(x.to_bits()),
        Tag::Double(y.to_bits()),
        Tag::Double(z.to_bits()),
    ])
}

fn player_fields(x: f64, y: f64, z: f64, dim: &str) -> Doc {
    vec![
        (b("Pos"), pos_list(x, y, z)),
        (b("Dimension"), Tag::Str(b(dim))),
        (b("Score"), Tag::Int(42)),
    ]
}

fn level_fields() -> Doc {
    vec![(
        b("Data"),
        Tag::Compound(vec![
            (b("SpawnX"), Tag::Int(100)),
            (b("SpawnY"), Tag::Int(64)),
            (b("SpawnZ"), Tag::Int((-50i32) as u32)),
            (b("Player"), Tag::Compound(player_fields(5.0, 6.0, 7.0, "minecraft:nether"))),
            (b("LevelName"), Tag::Str(b("home"))),
        ]),
    )]
}

#[test]
fn parse_pos_splits_three_components() {
    assert_eq!(
        parse_pos(&b("1, 2.5, -3")),
        Ok((b("1"), b("2.5"), b("-3")))
    );
}

#[test]
fn parse_pos_splits_whitespace_separated_triples() {
    assert_eq!(
        parse_pos(&b("100 64 -50")),
        Ok((b("100"), b("64"), b("-50")))
    );
    assert_eq!(parse_pos(&b("1\t2,3")), Ok((b("1"), b("2"), b("3"))));
}

#[test]
fn parse_pos_rejects_wrong_counts() {
    assert_eq!(parse_pos(&b("1,2")), Err(ToolError::Usage));
    assert_eq!(parse_pos(&b("1,2,3,4")), Err(ToolError::Usage));
    assert_eq!(parse_pos(&b("1 2 3 4")), Err(ToolError::Usage));
}

#[test]
fn backup_path_replaces_the_extension() {
    assert_eq!(backup_path(&b("w/playerdata/x.dat")), b("w/playerdata/x.dat_pm_old"));
}

#[test]
fn embedded_load_extracts_the_nested_record() {
    let bytes = encode_document(&level_fields());
    let mut sp = SinglePlayer::from_path(b("w/level.dat")).unwrap();
    let p = sp.decode(bytes).unwrap();
    assert_eq!(p.pos, (5.0f64.to_bits(), 6.0f64.to_bits(), 7.0f64.to_bits()));
    assert_eq!(p.dimension, b("minecraft:nether"));
}

#[test]
fn file_per_player_load_takes_the_whole_document() {
    let bytes = encode_document(&player_fields(5.0, 6.0, 7.0, "minecraft:nether"));
    let mut mp = MultiPlayer::new(b("Notch"), b("w/playerdata/x.dat"));
    let p = mp.decode(bytes).unwrap();
    assert_eq!(p.pos, (5.0f64.to_bits(), 6.0f64.to_bits(), 7.0f64.to_bits()));
    assert_eq!(p.dimension, b("minecraft:nether"));
}

#[test]
fn save_without_load_is_not_loaded() {
    let bytes = encode_document(&player_fields(0.0, 0.0, 0.0, "minecraft:overworld"));
    let mut mp = MultiPlayer::new(b("n"), b("p.dat"));
    let record = mp.decode(bytes).unwrap();
    let mut sp = SinglePlayer::from_path(b("w/level.dat")).unwrap();
    assert_eq!(sp.encode(record), Err(ToolError::NotLoaded));
}

#[test]
fn embedded_save_is_repeatable_after_one_load() {
    let bytes = encode_document(&level_fields());
    let mut sp = SinglePlayer::from_path(b("w/level.dat")).unwrap();
    let record = sp.decode(bytes).unwrap();
    let record2 = plan_move(record, None, (0, 0, 0), None);
    let first = sp.encode(record2).unwrap();
    let raw = encode_document(&level_fields());
    let record3 = {
        let mut sp2 = SinglePlayer::from_path(b("w/level.dat")).unwrap();
        sp2.decode(raw).unwrap()
    };
    let again = plan_move(record3, None, (0, 0, 0), None);
    let second = sp.encode(again).unwrap();
    assert_eq!(first, second);
}

#[test]
fn embedded_save_preserves_world_fields() {
    let bytes = encode_document(&level_fields());
    let mut sp = SinglePlayer::from_path(b("w/level.dat")).unwrap();
    let record = sp.decode(bytes).unwrap();
    let moved = plan_move(record, None, (1.0f64.to_bits(), 2.0f64.to_bits(), 3.0f64.to_bits()), None);
    let out = sp.encode(moved).unwrap();
    let doc = player_mover::wire::decode_document(&out).unwrap();
    let data = match &doc[0].1 {
        Tag::Compound(fs) => fs,
        _ => panic!("Data is not a compound"),
    };
    assert!(data.iter().any(|f| f.0 == b("LevelName") && f.1 == Tag::Str(b("home"))));
    assert!(data.iter().any(|f| f.0 == b("SpawnX") && f.1 == Tag::Int(100)));
}

#[test]
fn end_to_end_move_to_spawn_with_backup() {
    // The world directory, as an in-memory file store.
    let level_path = b("w/level.dat");
    let player_path = b("w/playerdata/069a79f4-44e9-4726-a5be-fca90e38aaf5.dat");
    let mut fs: HashMap<Vec<u8>, Vec<u8>> = HashMap::new();
    fs.insert(
        level_path.clone(),
        compress(&encode_document(&level_fields())),
    );
    fs.insert(
        player_path.clone(),
        compress(&encode_document(&player_fields(0.0, 0.0, 0.0, "minecraft:the_end"))),
    );

    // Load the per-player record.
    let raw = decompress(&fs[&player_path]).unwrap();
    let mut mp = MultiPlayer::new(b("Notch"), player_path.clone());
    let record = mp.decode(raw).unwrap();
    assert_eq!(record.dimension, b("minecraft:the_end"));

    // No overrides: the spawn point and the default dimension decide.
    let (sx, sy, sz) = get_spawn_point(&fs[&level_path]).unwrap();
    assert_eq!((sx, sy, sz), (100, 64, -50));
    let spawn = ((sx as f64).to_bits(), (sy as f64).to_bits(), (sz as f64).to_bits());
    let moved = plan_move(record, None, spawn, None);

    // Save: backup first, then the destructive write.
    let new_bytes = compress(&mp.encode(moved).unwrap());
    let bpath = backup_path(&player_path);
    let before = fs[&player_path].clone();
    fs.insert(bpath.clone(), fs[&player_path].clone());
    fs.insert(player_path.clone(), new_bytes);

    // The backup equals the pre-save content of the target.
    assert_eq!(fs[&bpath], before);

    // The saved record carries the spawn position and the overworld.
    let saved = decompress(&fs[&player_path]).unwrap();
    let mut mp2 = MultiPlayer::new(b("Notch"), player_path.clone());
    let p2 = mp2.decode(saved).unwrap();
    assert_eq!(
        p2.pos,
        (100.0f64.to_bits(), 64.0f64.to_bits(), (-50.0f64).to_bits())
    );
    assert_eq!(p2.dimension, b("minecraft:overworld"));
    // The untouched field survived the round trip.
    let out_doc = player_mover::dat::player_to_doc(p2);
    assert!(out_doc.iter().any(|f| f.0 == b("Score") && f.1 == Tag::Int(42)));
}
