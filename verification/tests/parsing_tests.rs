use aletheia::commands::{Args, Flag};
use aletheia::games::{clean_name, get_installed_games, Game, SteamScanner};
use aletheia::gamedb::{rules_for_os, GameFiles};
use aletheia::hashing::hash_bytes;
use aletheia::resolver::OsFamily;
use aletheia::updater::{parse_version, select_update, version_lt, Release, UpdateStatus, Version};
use aletheia::utils::sanitize_game_name;

fn strings(v: &[&str]) -> Vec<String> {
    v.iter().map(|s| (*s).to_owned()).collect()
}

#[test]
fn test_args_parse() {
    let args = strings(&["GameA", "GameB", "--infer", "heroic", "--verbose"]);
    let parsed = Args::parse(&args);
    assert_eq!(parsed.positional, vec!["GameA", "GameB"]);
    assert_eq!(parsed.flags.len(), 2);
    assert_eq!(parsed.flags[0].name, "infer");
    assert_eq!(parsed.flags[0].value.as_deref(), Some("heroic"));
    assert_eq!(parsed.flags[1].name, "verbose");
    assert!(parsed.flags[1].value.is_none());
    // A non-flag argument after a flag becomes that flag's value.
    let parsed2 = Args::parse(&strings(&["--verbose", "GameB"]));
    assert!(parsed2.positional.is_empty());
    assert_eq!(parsed2.flags[0].value.as_deref(), Some("GameB"));
}

#[test]
fn test_args_flag_before_flag_takes_no_value() {
    let args = strings(&["--one", "--two", "value"]);
    let parsed = Args::parse(&args);
    assert!(parsed.positional.is_empty());
    assert_eq!(parsed.flags.len(), 2);
    assert_eq!(parsed.flags[0].name, "one");
    assert!(parsed.flags[0].value.is_none());
    assert_eq!(parsed.flags[1].name, "two");
    assert_eq!(parsed.flags[1].value.as_deref(), Some("value"));
}

#[test]
fn test_args_accessors() {
    let args = strings(&["--infer", "lutris", "--dry-run"]);
    let parsed = Args::parse(&args);
    assert!(parsed.has_flag("infer"));
    assert!(parsed.has_flag("dry-run"));
    assert!(!parsed.has_flag("missing"));
    assert_eq!(parsed.get_flag("infer").unwrap().name, "infer");
    assert!(parsed.get_flag("missing").is_none());
    assert_eq!(parsed.get_flag_value("infer").map(|s| s.as_str()), Some("lutris"));
    assert!(parsed.get_flag_value("dry-run").is_none());
    let map = parsed.flags_map();
    assert_eq!(map.len(), 2);
    assert_eq!(map[0].0, "infer");
    assert_eq!(map[0].1.as_deref(), Some("lutris"));
    assert_eq!(map[1].0, "dry-run");
    assert_eq!(map[1].1, None);
}

#[test]
fn test_flags_map_last_value_wins() {
    // One name given twice maps to a single entry, the later value winning.
    let parsed = Args::parse(&strings(&["--infer", "heroic", "--infer", "lutris"]));
    assert_eq!(parsed.flags.len(), 2);
    let map = parsed.flags_map();
    assert_eq!(map.len(), 1);
    assert_eq!(map[0].0, "infer");
    assert_eq!(map[0].1.as_deref(), Some("lutris"));
}

#[test]
fn test_flag_constructors() {
    let plain = Flag::new("verbose");
    assert_eq!(plain.name, "verbose");
    assert!(plain.value.is_none());
    let valued = Flag::with_value("infer", "heroic");
    assert_eq!(valued.name, "infer");
    assert_eq!(valued.value.as_deref(), Some("heroic"));
}

#[test]
fn test_sanitize_game_name() {
    assert_eq!(sanitize_game_name("Half-Life: Alyx"), "Half-Life Alyx");
    assert_eq!(sanitize_game_name("Plain Name"), "Plain Name");
    assert_eq!(sanitize_game_name("a:b:c"), "abc");
}

#[test]
fn test_clean_name() {
    assert_eq!(clean_name("Terraria\u{2122}"), "Terraria");
    assert_eq!(clean_name("\u{ae}Brand Game "), "Brand Game");
    assert_eq!(clean_name("  spaced  "), "spaced");
    assert_eq!(clean_name("untouched"), "untouched");
}

#[test]
fn test_id64_to_id3() {
    assert_eq!(SteamScanner::id64_to_id3(76561197960265728 + 123), 123);
}

#[test]
fn test_get_installed_games_filters_and_cleans() {
    let games = vec![
        Game {
            name: "Terraria\u{2122}".to_owned(),
            installation_dir: None,
            prefix: None,
            source: "Steam".to_owned(),
        },
        Game {
            name: "Unknown Game".to_owned(),
            installation_dir: None,
            prefix: None,
            source: "Steam".to_owned(),
        },
    ];
    let db_names = strings(&["Terraria"]);
    let installed = get_installed_games(&games, &db_names);
    assert_eq!(installed.len(), 1);
    assert_eq!(installed[0].name, "Terraria");
    assert_eq!(installed[0].source, "Steam");
}

#[test]
fn test_rules_for_os() {
    let files = GameFiles {
        windows: Some(strings(&["{Documents}/G/save.dat"])),
        linux: Some(strings(&["{XDGData}/G/save.dat"])),
        mac: None,
    };
    assert_eq!(
        rules_for_os(&files, OsFamily::Linux),
        strings(&["{Documents}/G/save.dat", "{XDGData}/G/save.dat"])
    );
    assert_eq!(rules_for_os(&files, OsFamily::Windows), strings(&["{Documents}/G/save.dat"]));
    assert_eq!(rules_for_os(&files, OsFamily::Mac), strings(&["{Documents}/G/save.dat"]));
}

#[test]
fn test_hash_bytes_depends_on_content() {
    let a = hash_bytes(&b"abc".to_vec());
    let b = hash_bytes(&b"abd".to_vec());
    assert_eq!(a.len(), 64);
    assert_ne!(a, b);
    assert_ne!(a, "abc");
    assert_eq!(a, hash_bytes(&b"abc".to_vec()));
}

#[test]
fn test_parse_version() {
    let v = parse_version("1.2.3").unwrap();
    assert_eq!(v, Version { major: 1, minor: 2, patch: 3 });
    assert!(parse_version("not-a-version").is_none());
}

#[test]
fn test_version_order() {
    let v = |a, b, c| Version { major: a, minor: b, patch: c };
    assert!(version_lt(&v(1, 2, 3), &v(2, 0, 0)));
    assert!(version_lt(&v(1, 2, 3), &v(1, 3, 0)));
    assert!(version_lt(&v(1, 2, 3), &v(1, 2, 4)));
    assert!(!version_lt(&v(1, 2, 3), &v(1, 2, 3)));
    assert!(!version_lt(&v(2, 0, 0), &v(1, 9, 9)));
}

#[test]
fn test_select_update_skips_prereleases() {
    let releases = vec![
        Release {
            body: "rc".to_owned(),
            tag_name: "2.1.0".to_owned(),
            pre_release: true,
            url: "https://example.invalid/rc".to_owned(),
        },
        Release {
            body: "stable".to_owned(),
            tag_name: "2.0.0".to_owned(),
            pre_release: false,
            url: "https://example.invalid/stable".to_owned(),
        },
    ];
    match select_update(&releases, &Version { major: 1, minor: 9, patch: 0 }) {
        UpdateStatus::Available(r) => assert_eq!(r.tag_name, "2.0.0"),
        UpdateStatus::UpToDate => panic!("an older version must be offered the stable release"),
    }
    match select_update(&releases, &Version { major: 2, minor: 0, patch: 0 }) {
        UpdateStatus::UpToDate => {}
        UpdateStatus::Available(_) => panic!("an up-to-date version must not be offered anything"),
    }
}
