use player_mover::api::{normalize_identifier, resolve_all, resolve_identity};
use player_mover::player::{
    get_all_player, is_player_file_name, sort_names, Candidate, MultiPlayer, SinglePlayer,
    StorageKind,
};
use player_mover::ToolError;

fn b(s: &str) -> Vec<u8> {
    s.as_bytes().to_vec()
}

#[test]
fn accepts_canonical_identifier() {
    assert!(is_player_file_name(&b("069a79f4-44e9-4726-a5be-fca90e38aaf5.dat")));
}

#[test]
fn rejects_wrong_version_nibble() {
    assert!(!is_player_file_name(&b("069a79f4-44e9-3726-a5be-fca90e38aaf5.dat")));
}

#[test]
fn rejects_wrong_variant_nibble() {
    assert!(!is_player_file_name(&b("069a79f4-44e9-4726-c5be-fca90e38aaf5.dat")));
}

#[test]
fn rejects_wrong_shape() {
    assert!(!is_player_file_name(&b("069a79f4-44e9-4726-a5be-fca90e38aaf5")));
    assert!(!is_player_file_name(&b("069a79g4-44e9-4726-a5be-fca90e38aaf5.dat")));
    assert!(!is_player_file_name(&b("069a79f4x44e9-4726-a5be-fca90e38aaf5.dat")));
}

#[test]
fn enumeration_starts_with_embedded_then_matches() {
    let world = b("saves/world");
    let names = vec![
        b("069a79f4-44e9-4726-a5be-fca90e38aaf5.dat"),
        b("notes.txt"),
        b("069a79f4-44e9-3726-a5be-fca90e38aaf5.dat"),
        b("11111111-2222-4333-8444-555555555555.dat"),
    ];
    let cands = get_all_player(&world, &names);
    assert_eq!(cands.len(), 3);
    assert_eq!(cands[0].kind, StorageKind::Embedded);
    assert_eq!(cands[0].path, b("saves/world/level.dat"));
    assert_eq!(cands[1].kind, StorageKind::FilePerPlayer);
    assert_eq!(
        cands[1].path,
        b("saves/world/playerdata/069a79f4-44e9-4726-a5be-fca90e38aaf5.dat")
    );
    assert_eq!(
        cands[2].path,
        b("saves/world/playerdata/11111111-2222-4333-8444-555555555555.dat")
    );
}

#[test]
fn normalize_strips_hyphens_and_lowercases() {
    let n = normalize_identifier(&b("069A79F4-44E9-4726-A5BE-FCA90E38AAF5"));
    assert_eq!(n, b("069a79f444e94726a5befca90e38aaf5"));
}

#[test]
fn embedded_identity_is_local_and_needs_no_lookup() {
    assert_eq!(
        resolve_identity(StorageKind::Embedded, None),
        Ok(b("Local Player"))
    );
}

#[test]
fn file_per_player_identity_comes_from_the_lookup() {
    assert_eq!(
        resolve_identity(StorageKind::FilePerPlayer, Some(b("Notch"))),
        Ok(b("Notch"))
    );
    assert_eq!(
        resolve_identity(StorageKind::FilePerPlayer, None),
        Err(ToolError::IdentityUnavailable)
    );
}

#[test]
fn one_failed_lookup_leaves_the_others_alone() {
    let cands = vec![
        Candidate { path: b("w/level.dat"), kind: StorageKind::Embedded },
        Candidate { path: b("w/playerdata/a.dat"), kind: StorageKind::FilePerPlayer },
        Candidate { path: b("w/playerdata/b.dat"), kind: StorageKind::FilePerPlayer },
    ];
    let fetched = vec![None, None, Some(b("Notch"))];
    let resolved = resolve_all(&cands, fetched);
    assert_eq!(resolved.len(), 3);
    assert_eq!(resolved[0], Ok(b("Local Player")));
    assert_eq!(resolved[1], Err(ToolError::IdentityUnavailable));
    assert_eq!(resolved[2], Ok(b("Notch")));
}

#[test]
fn accessor_names_and_paths() {
    let sp = SinglePlayer::from_path(b("w/level.dat")).unwrap();
    assert_eq!(sp.get_name(), &b("Local Player"));
    assert_eq!(sp.get_path(), &b("w/level.dat"));
    let mp = MultiPlayer::from_path(b("w/playerdata/x.dat"), b("Notch")).unwrap();
    assert_eq!(mp.get_name(), &b("Notch"));
    assert_eq!(mp.get_path(), &b("w/playerdata/x.dat"));
}

#[test]
fn sorting_makes_enumeration_deterministic() {
    let world = b("w");
    let names = sort_names(vec![
        b("11111111-2222-4333-8444-555555555555.dat"),
        b("069a79f4-44e9-4726-a5be-fca90e38aaf5.dat"),
    ]);
    assert_eq!(
        names,
        vec![
            b("069a79f4-44e9-4726-a5be-fca90e38aaf5.dat"),
            b("11111111-2222-4333-8444-555555555555.dat"),
        ]
    );
    let cands = get_all_player(&world, &names);
    assert_eq!(
        cands[1].path,
        b("w/playerdata/069a79f4-44e9-4726-a5be-fca90e38aaf5.dat")
    );
    assert_eq!(
        cands[2].path,
        b("w/playerdata/11111111-2222-4333-8444-555555555555.dat")
    );
}
