use aletheia::context::{path_contains_subpath, replacements, HostEnv, ResolutionContext};
use aletheia::errors::EngineError;
use aletheia::paths::{join_path, split_path};
use aletheia::resolver::{expand, shrink, OsFamily, Token};
use aletheia::template::{file_name, parse_portable, render_portable, token_text};

fn comps(p: &str) -> Vec<String> {
    split_path(p)
}

fn linux_host() -> HostEnv {
    HostEnv {
        home: comps("/home/unittester"),
        username: "unittester".to_owned(),
        config_root: comps("/home/unittester/.config"),
        data_root: comps("/home/unittester/.local/share"),
        steam_root: None,
    }
}

fn linux_ctx(
    installation_dir: Option<&str>,
    prefix: Option<&str>,
    steam_account_id: Option<&str>,
) -> ResolutionContext {
    ResolutionContext {
        os: OsFamily::Linux,
        installation_dir: installation_dir.map(comps),
        prefix: prefix.map(comps),
        steam_account_id: steam_account_id.map(|s| s.to_owned()),
        host: linux_host(),
    }
}

fn mac_ctx(installation_dir: Option<&str>, prefix: Option<&str>) -> ResolutionContext {
    ResolutionContext {
        os: OsFamily::Mac,
        installation_dir: installation_dir.map(comps),
        prefix: prefix.map(comps),
        steam_account_id: None,
        host: HostEnv {
            home: comps("/Users/unittester"),
            username: "unittester".to_owned(),
            config_root: comps("/Users/unittester/Library/Preferences"),
            data_root: comps("/Users/unittester/Library/Application Support"),
            steam_root: None,
        },
    }
}

fn windows_ctx(installation_dir: Option<&str>) -> ResolutionContext {
    ResolutionContext {
        os: OsFamily::Windows,
        installation_dir: installation_dir.map(comps),
        prefix: None,
        steam_account_id: Some("12345".to_owned()),
        host: HostEnv {
            home: comps("C:/Users/unittester"),
            username: "unittester".to_owned(),
            config_root: comps("C:/Users/unittester/AppData/Roaming"),
            data_root: comps("C:/Users/unittester/AppData/Local"),
            steam_root: None,
        },
    }
}

fn expand_to_string(template: &str, ctx: &ResolutionContext) -> Result<String, EngineError> {
    let portable = parse_portable(template);
    let reps = replacements(ctx);
    expand(&portable, &reps).map(|v| join_path(&v))
}

#[test]
fn test_path_expansion() {
    let save_file_1 = "{LocalLow}/AllianceArts/All in Abyss/SaveData/GameData/GameSaveData_0.sav";
    let save_file_2 = "{GameRoot}/SAVEDATA/SonicDX01.snc";

    let prefix = "/home/unittester/Games/UnitTest";
    let ctx = linux_ctx(None, Some(prefix), None);
    assert_eq!(
        expand_to_string(save_file_1, &ctx).unwrap(),
        "/home/unittester/Games/UnitTest/drive_c/users/unittester/AppData/LocalLow/AllianceArts/All in Abyss/SaveData/GameData/GameSaveData_0.sav"
    );

    let root_ctx = linux_ctx(Some("/home/unittester/Games/Unit Test"), None, None);
    assert_eq!(
        expand_to_string(save_file_2, &root_ctx).unwrap(),
        "/home/unittester/Games/Unit Test/SAVEDATA/SonicDX01.snc"
    );

    let save_file_3 = "{XDGData}/Terraria/Players/UnitTest.plr";
    assert_eq!(
        expand_to_string(save_file_3, &linux_ctx(None, None, None)).unwrap(),
        "/home/unittester/.local/share/Terraria/Players/UnitTest.plr"
    );

    let save_file_mac = "{AppData}/Terraria/Players/UnitTest.plr";
    assert_eq!(
        expand_to_string(save_file_mac, &mac_ctx(None, None)).unwrap(),
        "/Users/unittester/Library/Application Support/Terraria/Players/UnitTest.plr"
    );

    let save_file_win = "{Documents}/My Games/Terraria/Players/UnitTest.plr";
    assert_eq!(
        expand_to_string(save_file_win, &windows_ctx(None)).unwrap(),
        "C:/Users/unittester/Documents/My Games/Terraria/Players/UnitTest.plr"
    );
}

#[test]
fn test_compat_prefix_uses_steamuser() {
    // A prefix inside the Steam compatibility cache resolves to the fixed
    // `steamuser` account, not the host user.
    let prefix = "/home/unittester/.local/share/Steam/steamapps/compatdata/123/pfx";
    let ctx = linux_ctx(None, Some(prefix), None);
    assert_eq!(
        expand_to_string("{LocalLow}/Vendor/Game/save.sav", &ctx).unwrap(),
        "/home/unittester/.local/share/Steam/steamapps/compatdata/123/pfx/drive_c/users/steamuser/AppData/LocalLow/Vendor/Game/save.sav"
    );
}

#[test]
fn test_windows_expansion() {
    let ctx = windows_ctx(None);
    assert_eq!(
        expand_to_string("{LocalLow}/Vendor/save.dat", &ctx).unwrap(),
        "C:/Users/unittester/AppData/LocalLow/Vendor/save.dat"
    );
    assert_eq!(
        expand_to_string("{SteamUserData}/440/remote/save.dat", &ctx).unwrap(),
        "C:/Program Files (x86)/Steam/userdata/12345/440/remote/save.dat"
    );
}

#[test]
fn test_steam_userdata_wildcard_without_account() {
    let prefix = "/home/unittester/Games/UnitTest";
    let ctx = linux_ctx(None, Some(prefix), None);
    assert_eq!(
        expand_to_string("{SteamUserData}/440/remote/save.dat", &ctx).unwrap(),
        "/home/unittester/.local/share/Steam/userdata/[0-9]*/440/remote/save.dat"
    );
    let ctx_with_id = linux_ctx(None, Some(prefix), Some("777"));
    assert_eq!(
        expand_to_string("{SteamUserData}/440/remote/save.dat", &ctx_with_id).unwrap(),
        "/home/unittester/.local/share/Steam/userdata/777/440/remote/save.dat"
    );
}

#[test]
fn test_missing_context_reported() {
    // A template needing the installation root fails without one.
    match expand_to_string("{GameRoot}/save.dat", &linux_ctx(None, None, None)) {
        Err(EngineError::MissingContext(Token::GameRoot)) => {}
        other => panic!("expected MissingContext(GameRoot), got {:?}", other.ok()),
    }
    // The Windows-layout tokens need a compatibility prefix on Linux.
    match expand_to_string("{Documents}/save.dat", &linux_ctx(None, None, None)) {
        Err(EngineError::MissingContext(Token::Documents)) => {}
        other => panic!("expected MissingContext(Documents), got {:?}", other.ok()),
    }
    // The XDG tokens have no meaning on the Windows family.
    match expand_to_string("{XDGData}/save.dat", &windows_ctx(None)) {
        Err(EngineError::MissingContext(Token::XdgData)) => {}
        other => panic!("expected MissingContext(XDGData), got {:?}", other.ok()),
    }
}

#[test]
fn test_tokens_match_whole_components_only() {
    // A token name inside a longer component stays literal.
    let ctx = linux_ctx(None, None, None);
    assert_eq!(
        expand_to_string("{XDGData}/pre{Documents}post/save.dat", &ctx).unwrap(),
        "/home/unittester/.local/share/pre{Documents}post/save.dat"
    );
    // A token in the middle of a template is still replaced.
    let prefix_ctx = linux_ctx(None, Some("/home/unittester/Games/P"), None);
    assert_eq!(
        expand_to_string("{Home}/sub/{Documents}", &prefix_ctx).unwrap(),
        "/home/unittester/Games/P/drive_c/users/unittester/sub//home/unittester/Games/P/drive_c/users/unittester/Documents"
    );
}

#[test]
fn test_roundtrip_every_token_linux() {
    // Expand, shrink, expand again: the concrete path comes back for
    // every token the context resolves.
    let ctx = linux_ctx(
        Some("/home/unittester/Games/Unit Test"),
        Some("/home/unittester/Games/UnitTest"),
        Some("777"),
    );
    let tokens = [
        Token::GameRoot,
        Token::AppData,
        Token::Documents,
        Token::Home,
        Token::LocalAppData,
        Token::LocalLow,
        Token::GogAppData,
        Token::SteamUserData,
        Token::XdgConfig,
        Token::XdgData,
    ];
    let reps = replacements(&ctx);
    for t in tokens {
        let template = format!("{}/Vendor/save.dat", token_text(t));
        let portable = parse_portable(&template);
        let concrete = expand(&portable, &reps).unwrap();
        let shrunk = shrink(&concrete, &reps);
        let concrete_again = expand(&shrunk, &reps).unwrap();
        assert_eq!(join_path(&concrete_again), join_path(&concrete));
    }
}

#[test]
fn test_roundtrip_every_token_mac_and_windows() {
    let mac = mac_ctx(Some("/Applications/Game.app"), None);
    let mac_tokens = [
        Token::GameRoot,
        Token::AppData,
        Token::Documents,
        Token::Home,
        Token::GogAppData,
        Token::SteamUserData,
    ];
    let reps = replacements(&mac);
    for t in mac_tokens {
        let template = format!("{}/Vendor/save.dat", token_text(t));
        let concrete = expand(&parse_portable(&template), &reps).unwrap();
        let again = expand(&shrink(&concrete, &reps), &reps).unwrap();
        assert_eq!(join_path(&again), join_path(&concrete));
    }
    let win = windows_ctx(Some("C:/Games/Unit Test"));
    let win_tokens = [
        Token::GameRoot,
        Token::AppData,
        Token::Documents,
        Token::Home,
        Token::LocalAppData,
        Token::LocalLow,
        Token::GogAppData,
        Token::SteamUserData,
    ];
    let reps = replacements(&win);
    for t in win_tokens {
        let template = format!("{}/Vendor/save.dat", token_text(t));
        let concrete = expand(&parse_portable(&template), &reps).unwrap();
        let again = expand(&shrink(&concrete, &reps), &reps).unwrap();
        assert_eq!(join_path(&again), join_path(&concrete));
    }
}

#[test]
fn test_shrink_prefers_most_specific() {
    // A path under LocalLow shrinks to {LocalLow}, not to {Home}, whose
    // directory also prefixes it.
    let prefix = "/home/unittester/Games/UnitTest";
    let ctx = linux_ctx(None, Some(prefix), None);
    let reps = replacements(&ctx);
    let concrete = comps(
        "/home/unittester/Games/UnitTest/drive_c/users/unittester/AppData/LocalLow/Vendor/save.sav",
    );
    let shrunk = render_portable(&shrink(&concrete, &reps));
    assert_eq!(shrunk, "{LocalLow}/Vendor/save.sav");
}

#[test]
fn test_shrink_prefers_gog_over_local_app_data() {
    // The GOG directory lives under the local application-data
    // directory; the longer prefix wins, on every family.
    let prefix = "/home/unittester/Games/UnitTest";
    let ctx = linux_ctx(None, Some(prefix), None);
    let reps = replacements(&ctx);
    let concrete = comps(
        "/home/unittester/Games/UnitTest/drive_c/users/unittester/AppData/Local/GOG.com/Galaxy/Applications/1207658924/save.dat",
    );
    assert_eq!(
        render_portable(&shrink(&concrete, &reps)),
        "{GOGAppData}/1207658924/save.dat"
    );

    let win = windows_ctx(None);
    let win_reps = replacements(&win);
    let win_concrete = comps(
        "C:/Users/unittester/AppData/Local/GOG.com/Galaxy/Applications/1207658924/save.dat",
    );
    assert_eq!(
        render_portable(&shrink(&win_concrete, &win_reps)),
        "{GOGAppData}/1207658924/save.dat"
    );

    let mac = mac_ctx(None, None);
    let mac_reps = replacements(&mac);
    let mac_concrete = comps(
        "/Users/unittester/Library/Application Support/GOG.com/Galaxy/Applications/1207658924/save.dat",
    );
    assert_eq!(
        render_portable(&shrink(&mac_concrete, &mac_reps)),
        "{GOGAppData}/1207658924/save.dat"
    );
}

#[test]
fn test_shrink_unknown_path_unchanged() {
    let ctx = linux_ctx(None, None, None);
    let reps = replacements(&ctx);
    let concrete = comps("/tmp/somewhere/else.dat");
    let shrunk = render_portable(&shrink(&concrete, &reps));
    assert_eq!(shrunk, "/tmp/somewhere/else.dat");
}

#[test]
fn test_path_contains_subpath() {
    let hay = comps("/home/u/.local/share/Steam/steamapps/compatdata/99/pfx");
    assert!(path_contains_subpath(&hay, &comps("Steam/steamapps/compatdata")));
    assert!(path_contains_subpath(&hay, &comps("99/pfx")));
    assert!(!path_contains_subpath(&hay, &comps("steamapps/Steam")));
    assert!(!path_contains_subpath(&comps("a/b"), &comps("a/b/c")));
}

#[test]
fn test_split_and_join() {
    assert_eq!(split_path("a/b/c"), vec!["a", "b", "c"]);
    assert_eq!(split_path("/home/u"), vec!["", "home", "u"]);
    assert_eq!(split_path("a//b"), vec!["a", "", "b"]);
    assert_eq!(split_path("plain"), vec!["plain"]);
    for s in ["a/b/c", "/home/u", "a//b", "", "trailing/"] {
        assert_eq!(join_path(&split_path(s)), s);
    }
}

#[test]
fn test_file_name() {
    assert_eq!(file_name("{LocalLow}/Vendor/Game/save.sav"), "save.sav");
    assert_eq!(file_name("save.sav"), "save.sav");
    assert_eq!(file_name("/abs/path/file"), "file");
}

#[test]
fn test_parse_render_roundtrip() {
    for s in [
        "{Documents}/Example/save.dat",
        "{GameRoot}/SAVEDATA/SonicDX01.snc",
        "plain/path/only",
        "{SteamUserData}/440/remote",
    ] {
        assert_eq!(render_portable(&parse_portable(s)), s);
    }
}
