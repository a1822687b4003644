use aletheia::backup::{assemble_manifest, plan_backup, resolve_rehash, LiveFile, PlanItem,
    ResolvedFile};
use aletheia::context::{HostEnv, ResolutionContext};
use aletheia::discovery::{discovery_patterns, filter_candidates, FoundFile};
use aletheia::errors::EngineError;
use aletheia::games::{find_game, Game};
use aletheia::hashing::hash_bytes;
use aletheia::manifest::{find_entry, FileMetadata, GameInfo};
use aletheia::paths::{join_path, split_path};
use aletheia::resolver::OsFamily;
use aletheia::restore::{check_archive, restore_decisions, restore_targets};

fn comps(p: &str) -> Vec<String> {
    split_path(p)
}

fn posix_ctx() -> ResolutionContext {
    // The POSIX family without a compatibility prefix: documents live
    // under the host home directory.
    ResolutionContext {
        os: OsFamily::Mac,
        installation_dir: None,
        prefix: None,
        steam_account_id: None,
        host: HostEnv {
            home: comps("/home/unittester"),
            username: "unittester".to_owned(),
            config_root: comps("/home/unittester/.config"),
            data_root: comps("/home/unittester/.local/share"),
            steam_root: None,
        },
    }
}

fn entry_for(portable: &str, data: &[u8], modified: u64) -> FileMetadata {
    FileMetadata {
        hash: hash_bytes(&data.to_vec()),
        modified,
        path: portable.to_owned(),
        size: data.len() as u64,
    }
}

#[test]
fn test_discovery_and_first_backup() {
    // The application "Example" has one rule; discovery expands it, the
    // live file shrinks back to the portable path, and the first backup
    // creates a one-entry manifest.
    let ctx = posix_ctx();
    let rules = vec!["{Documents}/Example/save.dat".to_owned()];
    let (patterns, skipped) = discovery_patterns(&rules, &ctx);
    assert_eq!(patterns, vec!["/home/unittester/Documents/Example/save.dat"]);
    assert!(skipped.is_empty());

    let found = vec![FoundFile {
        path: comps("/home/unittester/Documents/Example/save.dat"),
        modified: 100,
        is_dir: false,
    }];
    let kept = filter_candidates(&found);
    assert_eq!(kept, vec![0usize]);

    let cands = vec![LiveFile { path: found[0].path.clone(), modified: 100 }];
    let plan = plan_backup(&cands, &ctx, &None);
    assert_eq!(plan.len(), 1);
    let resolved = match &plan[0] {
        PlanItem::Rehash { portable, previous } => {
            assert_eq!(portable, "{Documents}/Example/save.dat");
            assert!(previous.is_none());
            let (entry, changed) = resolve_rehash(portable.clone(), previous, &b"save-bytes".to_vec(), 100);
            assert!(changed);
            assert_eq!(entry.path, "{Documents}/Example/save.dat");
            assert_eq!(entry.size, 10);
            vec![ResolvedFile { entry, changed }]
        }
        PlanItem::Carry { .. } => panic!("first backup must hash the new file"),
    };
    let (changed, manifest) = assemble_manifest(&"Example".to_owned(), &resolved);
    assert!(changed);
    let manifest = manifest.unwrap();
    assert_eq!(manifest.name, "Example");
    assert_eq!(manifest.files.len(), 1);

    // A second run with no live changes carries the record and writes
    // nothing.
    let plan2 = plan_backup(&cands, &ctx, &Some(manifest));
    let resolved2: Vec<ResolvedFile> = plan2
        .iter()
        .map(|item| match item {
            PlanItem::Carry { entry } => ResolvedFile {
                entry: FileMetadata {
                    hash: entry.hash.clone(),
                    modified: entry.modified,
                    path: entry.path.clone(),
                    size: entry.size,
                },
                changed: false,
            },
            PlanItem::Rehash { .. } => panic!("unchanged file must not be rehashed"),
        })
        .collect();
    let (changed2, manifest2) = assemble_manifest(&"Example".to_owned(), &resolved2);
    assert!(!changed2);
    assert!(manifest2.is_none());
}

#[test]
fn test_skip_rehash_ignores_changed_bytes() {
    // The modification time did not advance, so the record is carried
    // forward even though the bytes changed out of band.
    let ctx = posix_ctx();
    let old_entry = entry_for("{Documents}/Example/save.dat", b"old-bytes", 100);
    let old_hash = old_entry.hash.clone();
    let previous = Some(GameInfo { name: "Example".to_owned(), files: vec![old_entry] });
    let cands = vec![LiveFile {
        path: comps("/home/unittester/Documents/Example/save.dat"),
        modified: 100,
    }];
    let plan = plan_backup(&cands, &ctx, &previous);
    match &plan[0] {
        PlanItem::Carry { entry } => {
            assert_eq!(entry.hash, old_hash);
            assert_eq!(entry.modified, 100);
        }
        PlanItem::Rehash { .. } => panic!("stale modification time must not trigger a rehash"),
    }
}

#[test]
fn test_rehash_with_equal_hash_carries_record() {
    // The modification time advanced but the bytes are the same: the old
    // record is carried forward unchanged, and the run reports no change.
    let ctx = posix_ctx();
    let old_entry = entry_for("{Documents}/Example/save.dat", b"same-bytes", 100);
    let previous = Some(GameInfo { name: "Example".to_owned(), files: vec![old_entry] });
    let cands = vec![LiveFile {
        path: comps("/home/unittester/Documents/Example/save.dat"),
        modified: 200,
    }];
    let plan = plan_backup(&cands, &ctx, &previous);
    match &plan[0] {
        PlanItem::Rehash { portable, previous } => {
            let (entry, changed) =
                resolve_rehash(portable.clone(), previous, &b"same-bytes".to_vec(), 200);
            assert!(!changed);
            // The record keeps its original modification time.
            assert_eq!(entry.modified, 100);
        }
        PlanItem::Carry { .. } => panic!("an advanced modification time must be rehashed"),
    }
}

#[test]
fn test_changed_bytes_update_record() {
    let ctx = posix_ctx();
    let old_entry = entry_for("{Documents}/Example/save.dat", b"old-bytes", 100);
    let previous = Some(GameInfo { name: "Example".to_owned(), files: vec![old_entry] });
    let cands = vec![LiveFile {
        path: comps("/home/unittester/Documents/Example/save.dat"),
        modified: 200,
    }];
    let plan = plan_backup(&cands, &ctx, &previous);
    match &plan[0] {
        PlanItem::Rehash { portable, previous } => {
            let (entry, changed) =
                resolve_rehash(portable.clone(), previous, &b"new-bytes".to_vec(), 200);
            assert!(changed);
            assert_eq!(entry.modified, 200);
            assert_eq!(entry.hash, hash_bytes(&b"new-bytes".to_vec()));
        }
        PlanItem::Carry { .. } => panic!("changed bytes must produce a fresh record"),
    }
}

#[test]
fn test_restore_noop_when_live_matches() {
    let manifest = GameInfo {
        name: "Example".to_owned(),
        files: vec![
            entry_for("{Documents}/Example/a.dat", b"aaa", 100),
            entry_for("{Documents}/Example/b.dat", b"bbb", 100),
        ],
    };
    let archived = vec![Some(b"aaa".to_vec()), Some(b"bbb".to_vec())];
    assert!(check_archive(&manifest, &archived).is_ok());
    let live = vec![Some(b"aaa".to_vec()), Some(b"bbb".to_vec())];
    let (copies, restored) = restore_decisions(&manifest, &live);
    assert_eq!(copies, vec![false, false]);
    assert!(!restored);
}

#[test]
fn test_corruption_detected_before_any_copy() {
    // One archived file's bytes were mutated without updating the
    // manifest: the restore aborts, naming the file, before anything is
    // copied.
    let manifest = GameInfo {
        name: "Example".to_owned(),
        files: vec![
            entry_for("{Documents}/Example/a.dat", b"aaa", 100),
            entry_for("{Documents}/Example/b.dat", b"bbb", 100),
        ],
    };
    let archived = vec![Some(b"aaa".to_vec()), Some(b"mutated".to_vec())];
    match check_archive(&manifest, &archived) {
        Err(EngineError::CorruptedArchive(name)) => assert_eq!(name, "b.dat"),
        _ => panic!("a mutated archived file must fail the integrity check"),
    }
    // A missing archived file fails the same way.
    let missing = vec![None, Some(b"bbb".to_vec())];
    match check_archive(&manifest, &missing) {
        Err(EngineError::CorruptedArchive(name)) => assert_eq!(name, "a.dat"),
        _ => panic!("a missing archived file must fail the integrity check"),
    }
}

#[test]
fn test_restore_copies_missing_and_stale() {
    let ctx = posix_ctx();
    let manifest = GameInfo {
        name: "Example".to_owned(),
        files: vec![
            entry_for("{Documents}/Example/a.dat", b"aaa", 100),
            entry_for("{Documents}/Example/b.dat", b"bbb", 100),
        ],
    };
    let targets = restore_targets(&manifest, &ctx).unwrap();
    assert_eq!(join_path(&targets[0]), "/home/unittester/Documents/Example/a.dat");
    assert_eq!(join_path(&targets[1]), "/home/unittester/Documents/Example/b.dat");
    // The first live file is missing, the second holds stale bytes.
    let live = vec![None, Some(b"stale".to_vec())];
    let (copies, restored) = restore_decisions(&manifest, &live);
    assert_eq!(copies, vec![true, true]);
    assert!(restored);
}

#[test]
fn test_restore_target_needs_context() {
    let ctx = posix_ctx();
    let manifest = GameInfo {
        name: "Example".to_owned(),
        files: vec![entry_for("{GameRoot}/save.dat", b"aaa", 100)],
    };
    assert!(matches!(
        restore_targets(&manifest, &ctx),
        Err(EngineError::MissingContext(_))
    ));
}

#[test]
fn test_find_game_and_entry() {
    let games = vec![
        Game {
            name: "Alpha".to_owned(),
            installation_dir: None,
            prefix: None,
            source: "Steam".to_owned(),
        },
        Game {
            name: "Beta".to_owned(),
            installation_dir: Some(comps("/games/beta")),
            prefix: None,
            source: "Steam".to_owned(),
        },
    ];
    assert_eq!(find_game(&games, &"Beta".to_owned()), Some(1));
    assert_eq!(find_game(&games, &"Gamma".to_owned()), None);

    let files = vec![
        entry_for("{Documents}/a.dat", b"a", 1),
        entry_for("{Documents}/b.dat", b"b", 2),
    ];
    assert_eq!(find_entry(&files, &"{Documents}/b.dat".to_owned()), Some(1));
    assert_eq!(find_entry(&files, &"{Documents}/c.dat".to_owned()), None);
}

#[test]
fn test_unresolvable_rule_skipped_not_fatal() {
    // One rule needs an installation root the context lacks; its sibling
    // is still expanded.
    let ctx = posix_ctx();
    let rules = vec![
        "{GameRoot}/save.dat".to_owned(),
        "{Documents}/Example/save.dat".to_owned(),
    ];
    let (patterns, skipped) = discovery_patterns(&rules, &ctx);
    assert_eq!(patterns, vec!["/home/unittester/Documents/Example/save.dat"]);
    assert_eq!(skipped, vec!["{GameRoot}/save.dat"]);
}

#[test]
fn test_filter_candidates_rejects_noise_and_duplicates() {
    let found = vec![
        FoundFile { path: comps("/saves/dir"), modified: 1, is_dir: true },
        FoundFile { path: comps("/saves/steam_autocloud.vdf"), modified: 1, is_dir: false },
        FoundFile { path: comps("/saves/a.dat"), modified: 1, is_dir: false },
        FoundFile { path: comps("/saves/a.dat"), modified: 1, is_dir: false },
        FoundFile { path: comps("/saves/b.dat"), modified: 1, is_dir: false },
    ];
    assert_eq!(filter_candidates(&found), vec![2usize, 4usize]);
}
