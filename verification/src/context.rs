//! Resolution contexts and the ordered replacement lists they induce.
//!
//! A [`ResolutionContext`] carries the facts needed to resolve every
//! placeholder for one application: the operating-system family, the
//! optional installation directory, the optional compatibility prefix, the
//! optional platform account id, and the host's own directories.  The
//! priority order in which `shrink` tries the resolved directories is the
//! single list each `*_reps` spec function writes down, most specific
//! first: a directory is listed before every directory that prefixes it,
//! so the longest matching prefix wins.

use crate::paths::comps_view;
use crate::resolver::{reps_view, unique_tokens, OsFamily, Replacement, Token};
use crate::resolver::clone_components;
use vstd::prelude::*;

verus! {

/// Host facts that only the surrounding application can gather: looked up
/// once per run and passed in, never consulted again.
pub struct HostEnv {
    /// The user's home directory.
    pub home: Vec<String>,
    /// The operating-system user name.
    pub username: String,
    /// The host's configuration root (the XDG config home, or the roaming
    /// application-data directory on the Windows family).
    pub config_root: Vec<String>,
    /// The host's data root (the XDG data home, or the local
    /// application-data directory on the Windows family).
    pub data_root: Vec<String>,
    /// The Steam installation directory, where lookup succeeded.
    pub steam_root: Option<Vec<String>>,
}

/// Everything needed to resolve placeholders for one application; built
/// fresh per application per run and never mutated.
pub struct ResolutionContext {
    pub os: OsFamily,
    /// The application's installation root, if known.
    pub installation_dir: Option<Vec<String>>,
    /// The root of a Windows-compatibility-layer instance, if one applies.
    pub prefix: Option<Vec<String>>,
    /// The platform account id disambiguating per-user cloud saves.
    pub steam_account_id: Option<String>,
    pub host: HostEnv,
}

/// `needle` occurs as a consecutive run of `haystack`'s components.
pub open spec fn contains_sub(haystack: Seq<Seq<char>>, needle: Seq<Seq<char>>) -> bool {
    exists|i: int|
        0 <= i && i + needle.len() <= haystack.len() && #[trigger] haystack.subrange(
            i,
            i + needle.len(),
        ) == needle
}

/// The marker components of a Steam compatibility-layer cache.
pub open spec fn compat_marker() -> Seq<Seq<char>> {
    seq!["Steam"@, "steamapps"@, "compatdata"@]
}

/// The user name inside a compatibility prefix: the fixed name used by the
/// Steam compatibility layer when the prefix lives in its cache, else the
/// host user name.
pub open spec fn prefix_user(prefix: Seq<Seq<char>>, host_user: Seq<char>) -> Seq<char> {
    if contains_sub(prefix, compat_marker()) {
        "steamuser"@
    } else {
        host_user
    }
}

/// The component standing for the account inside a Steam user-data
/// directory: the account id, or a wildcard matching any account.
pub open spec fn account_comp(ctx: ResolutionContext) -> Seq<char> {
    match ctx.steam_account_id {
        Some(id) => id@,
        None => "[0-9]*"@,
    }
}

/// All but the last component.
pub open spec fn parent_dir(p: Seq<Seq<char>>) -> Seq<Seq<char>> {
    if p.len() > 0 {
        p.drop_last()
    } else {
        p
    }
}

/// The Windows user tree inside a compatibility prefix.
pub open spec fn prefix_user_dir(prefix: Seq<Seq<char>>, user: Seq<char>) -> Seq<Seq<char>> {
    prefix + seq!["drive_c"@, "users"@, user]
}

/// Replacements for the Linux family, in shrink priority order.
pub open spec fn linux_reps(ctx: ResolutionContext) -> Seq<(Token, Seq<Seq<char>>)> {
    let data = comps_view(ctx.host.data_root@);
    let middle = match ctx.prefix {
        Some(p) => {
            let user = prefix_user_dir(comps_view(p@), prefix_user(comps_view(p@), ctx.host.username@));
            let win_appdata = user + seq!["AppData"@];
            let local = win_appdata + seq!["Local"@];
            seq![
                (Token::LocalLow, win_appdata + seq!["LocalLow"@]),
                (Token::GogAppData, local + seq!["GOG.com"@, "Galaxy"@, "Applications"@]),
                (Token::LocalAppData, local),
                (Token::AppData, win_appdata + seq!["Roaming"@]),
                (Token::Documents, user + seq!["Documents"@]),
                (Token::Home, user),
                (Token::SteamUserData, data + seq!["Steam"@, "userdata"@, account_comp(ctx)]),
            ]
        },
        None => seq![],
    };
    middle + seq![
        (Token::XdgConfig, comps_view(ctx.host.config_root@)),
        (Token::XdgData, data),
    ]
}

/// The fallback Steam installation directory on the Windows family.
pub open spec fn default_steam_root() -> Seq<Seq<char>> {
    seq!["C:"@, "Program Files (x86)"@, "Steam"@]
}

/// Replacements for the Windows family, in shrink priority order.
pub open spec fn windows_reps(ctx: ResolutionContext) -> Seq<(Token, Seq<Seq<char>>)> {
    let roaming = comps_view(ctx.host.config_root@);
    let local = comps_view(ctx.host.data_root@);
    let home = comps_view(ctx.host.home@);
    let steam_base = match ctx.host.steam_root {
        Some(p) => comps_view(p@),
        None => default_steam_root(),
    };
    seq![
        (Token::LocalLow, parent_dir(local) + seq!["LocalLow"@]),
        (Token::GogAppData, local + seq!["GOG.com"@, "Galaxy"@, "Applications"@]),
        (Token::LocalAppData, local),
        (Token::AppData, roaming),
        (Token::Documents, home + seq!["Documents"@]),
        (Token::Home, home),
        (Token::SteamUserData, steam_base + seq!["userdata"@, account_comp(ctx)]),
    ]
}

/// Replacements for the Mac family, in shrink priority order.
pub open spec fn mac_reps(ctx: ResolutionContext) -> Seq<(Token, Seq<Seq<char>>)> {
    let home = comps_view(ctx.host.home@);
    let support = home + seq!["Library"@, "Application Support"@];
    let first = seq![
        (Token::SteamUserData, support + seq!["Steam"@, "userdata"@, account_comp(ctx)]),
    ];
    first + match ctx.prefix {
        Some(p) => {
            let user = prefix_user_dir(comps_view(p@), ctx.host.username@);
            let win_appdata = user + seq!["AppData"@];
            let local = win_appdata + seq!["Local"@];
            seq![
                (Token::LocalLow, win_appdata + seq!["LocalLow"@]),
                (Token::GogAppData, local + seq!["GOG.com"@, "Galaxy"@, "Applications"@]),
                (Token::LocalAppData, local),
                (Token::AppData, win_appdata + seq!["Roaming"@]),
                (Token::Documents, user + seq!["Documents"@]),
                (Token::Home, user),
            ]
        },
        None => seq![
            (Token::GogAppData, support + seq!["GOG.com"@, "Galaxy"@, "Applications"@]),
            (Token::AppData, support),
            (Token::Documents, home + seq!["Documents"@]),
            (Token::Home, home),
        ],
    }
}

/// The full replacement list a context induces: the installation root
/// first, then the family's own list.
pub open spec fn spec_replacements(ctx: ResolutionContext) -> Seq<(Token, Seq<Seq<char>>)> {
    let base = match ctx.installation_dir {
        Some(d) => seq![(Token::GameRoot, comps_view(d@))],
        None => Seq::<(Token, Seq<Seq<char>>)>::empty(),
    };
    base + match ctx.os {
        OsFamily::Linux => linux_reps(ctx),
        OsFamily::Windows => windows_reps(ctx),
        OsFamily::Mac => mac_reps(ctx),
    }
}

/// Law: a context never resolves one token to two directories, so the
/// round-trip law applies to every context's replacement list.
pub proof fn lemma_replacements_unique(ctx: ResolutionContext)
    ensures
        unique_tokens(spec_replacements(ctx)),
{
    match ctx.os {
        OsFamily::Linux => {
            match ctx.prefix {
                Some(_) => {},
                None => {},
            }
        },
        OsFamily::Windows => {},
        OsFamily::Mac => {
            match ctx.prefix {
                Some(_) => {},
                None => {},
            }
        },
    }
}

/// Law: under any context, expanding a shrunk concrete path yields the
/// path back; in particular, for a template the context resolves,
/// expand–shrink–expand equals expand.
pub proof fn lemma_context_roundtrip(path: Seq<Seq<char>>, ctx: ResolutionContext)
    ensures
        crate::resolver::spec_expand(
            crate::resolver::spec_shrink(path, spec_replacements(ctx)),
            spec_replacements(ctx),
        ) == Some(path),
{
    lemma_replacements_unique(ctx);
    crate::resolver::lemma_expand_shrink_roundtrip(path, spec_replacements(ctx));
}

/// Whether `needle`'s components start at index `i` of `haystack`.
fn run_matches_at(haystack: &Vec<String>, needle: &Vec<String>, i: usize) -> (r: bool)
    requires
        i + needle@.len() <= haystack@.len(),
    ensures
        r == (comps_view(haystack@).subrange(i as int, i + needle@.len()) == comps_view(needle@)),
{
    let ghost hv = comps_view(haystack@);
    let ghost nv = comps_view(needle@);
    proof {
        assert(haystack.len() == hv.len());
    }
    let mut j: usize = 0;
    while j < needle.len()
        invariant
            hv == comps_view(haystack@),
            nv == comps_view(needle@),
            i + nv.len() <= hv.len(),
            hv.len() <= usize::MAX,
            0 <= j <= nv.len(),
            forall|b: int| 0 <= b < j ==> hv[i + b] == nv[b],
        decreases nv.len() - j,
    {
        if !haystack[i + j].eq(&needle[j]) {
            proof {
                assert(hv.subrange(i as int, i + nv.len())[j as int] != nv[j as int]);
            }
            return false;
        }
        j += 1;
    }
    proof {
        assert(hv.subrange(i as int, i + nv.len()) =~= nv);
    }
    true
}

/// Whether `needle`'s components occur consecutively in `haystack`.
pub fn path_contains_subpath(haystack: &Vec<String>, needle: &Vec<String>) -> (r: bool)
    requires
        needle@.len() >= 1,
    ensures
        r == contains_sub(comps_view(haystack@), comps_view(needle@)),
{
    let ghost hv = comps_view(haystack@);
    let ghost nv = comps_view(needle@);
    if needle.len() > haystack.len() {
        proof {
            assert(!contains_sub(hv, nv));
        }
        return false;
    }
    proof {
        assert(haystack.len() == hv.len());
        assert(needle.len() == nv.len());
    }
    let last_start = haystack.len() - needle.len();
    let mut i: usize = 0;
    while i <= last_start
        invariant
            hv == comps_view(haystack@),
            nv == comps_view(needle@),
            1 <= nv.len() <= hv.len(),
            hv.len() <= usize::MAX,
            last_start == hv.len() - nv.len(),
            0 <= i <= last_start + 1,
            forall|a: int| 0 <= a < i ==> #[trigger] hv.subrange(a, a + nv.len()) != nv,
        decreases last_start + 1 - i,
    {
        if run_matches_at(haystack, needle, i) {
            return true;
        }
        i += 1;
    }
    proof {
        assert forall|a: int| 0 <= a && a + nv.len() <= hv.len() implies #[trigger] hv.subrange(
            a,
            a + nv.len(),
        ) != nv by {
            assert(a < i);
        }
    }
    false
}

fn push_lit(v: &mut Vec<String>, s: &str)
    ensures
        comps_view(final(v)@) == comps_view(old(v)@).push(s@),
{
    let ghost before = comps_view(v@);
    v.push(s.to_owned());
    proof {
        assert(comps_view(v@) =~= before.push(s@));
    }
}

fn dir1(base: &Vec<String>, a: &str) -> (r: Vec<String>)
    ensures
        comps_view(r@) == comps_view(base@) + seq![a@],
{
    let mut r = clone_components(base);
    push_lit(&mut r, a);
    proof {
        assert(comps_view(base@).push(a@) =~= comps_view(base@) + seq![a@]);
    }
    r
}

fn dir2(base: &Vec<String>, a: &str, b: &str) -> (r: Vec<String>)
    ensures
        comps_view(r@) == comps_view(base@) + seq![a@, b@],
{
    let mut r = clone_components(base);
    push_lit(&mut r, a);
    push_lit(&mut r, b);
    proof {
        assert(comps_view(base@).push(a@).push(b@) =~= comps_view(base@) + seq![a@, b@]);
    }
    r
}

fn dir3(base: &Vec<String>, a: &str, b: &str, c: &str) -> (r: Vec<String>)
    ensures
        comps_view(r@) == comps_view(base@) + seq![a@, b@, c@],
{
    let mut r = clone_components(base);
    push_lit(&mut r, a);
    push_lit(&mut r, b);
    push_lit(&mut r, c);
    proof {
        assert(comps_view(base@).push(a@).push(b@).push(c@) =~= comps_view(base@)
            + seq![a@, b@, c@]);
    }
    r
}

fn push_rep(r: &mut Vec<Replacement>, t: Token, dir: Vec<String>)
    ensures
        reps_view(final(r)@) == reps_view(old(r)@).push((t, comps_view(dir@))),
{
    let ghost before = reps_view(r@);
    let ghost dv = comps_view(dir@);
    r.push(Replacement { token: t, dir });
    proof {
        assert(reps_view(r@) =~= before.push((t, dv)));
    }
}

/// The user name to use inside a compatibility prefix.
fn prefix_username(prefix: &Vec<String>, host_username: &String) -> (r: String)
    ensures
        r@ == prefix_user(comps_view(prefix@), host_username@),
{
    let mut marker: Vec<String> = Vec::new();
    push_lit(&mut marker, "Steam");
    push_lit(&mut marker, "steamapps");
    push_lit(&mut marker, "compatdata");
    proof {
        assert(comps_view(marker@) =~= compat_marker());
    }
    if path_contains_subpath(prefix, &marker) {
        String::from_str("steamuser")
    } else {
        host_username.clone()
    }
}

/// The account component for the Steam user-data directory.
fn account_component(ctx: &ResolutionContext) -> (r: String)
    ensures
        r@ == account_comp(*ctx),
{
    match &ctx.steam_account_id {
        Some(id) => id.clone(),
        None => String::from_str("[0-9]*"),
    }
}

fn add_linux(r: &mut Vec<Replacement>, ctx: &ResolutionContext)
    requires
        ctx.os == OsFamily::Linux,
    ensures
        reps_view(final(r)@) == reps_view(old(r)@) + linux_reps(*ctx),
{
    let ghost before = reps_view(r@);
    match &ctx.prefix {
        Some(p) => {
            let user_name = prefix_username(p, &ctx.host.username);
            let user = dir3(p, "drive_c", "users", user_name.as_str());
            proof {
                assert(comps_view(user@) =~= prefix_user_dir(
                    comps_view(p@),
                    prefix_user(comps_view(p@), ctx.host.username@),
                ));
            }
            let win_appdata = dir1(&user, "AppData");
            let local = dir1(&win_appdata, "Local");
            push_rep(r, Token::LocalLow, dir1(&win_appdata, "LocalLow"));
            push_rep(r, Token::GogAppData, dir3(&local, "GOG.com", "Galaxy", "Applications"));
            push_rep(r, Token::LocalAppData, local);
            push_rep(r, Token::AppData, dir1(&win_appdata, "Roaming"));
            push_rep(r, Token::Documents, dir1(&user, "Documents"));
            push_rep(r, Token::Home, user);
            let acct = account_component(ctx);
            let sud = dir3(&ctx.host.data_root, "Steam", "userdata", acct.as_str());
            proof {
                assert(comps_view(sud@) =~= comps_view(ctx.host.data_root@)
                    + seq!["Steam"@, "userdata"@, account_comp(*ctx)]);
            }
            push_rep(r, Token::SteamUserData, sud);
        },
        None => {},
    }
    push_rep(r, Token::XdgConfig, clone_components(&ctx.host.config_root));
    push_rep(r, Token::XdgData, clone_components(&ctx.host.data_root));
    proof {
        assert(reps_view(r@) =~= before + linux_reps(*ctx));
    }
}

fn add_windows(r: &mut Vec<Replacement>, ctx: &ResolutionContext)
    requires
        ctx.os == OsFamily::Windows,
    ensures
        reps_view(final(r)@) == reps_view(old(r)@) + windows_reps(*ctx),
{
    let ghost before = reps_view(r@);
    let local = &ctx.host.data_root;
    let mut local_parent = clone_components(local);
    if local_parent.len() > 0 {
        local_parent.pop();
    }
    proof {
        assert(comps_view(local_parent@) =~= parent_dir(comps_view(local@)));
    }
    push_rep(r, Token::LocalLow, dir1(&local_parent, "LocalLow"));
    push_rep(r, Token::GogAppData, dir3(local, "GOG.com", "Galaxy", "Applications"));
    push_rep(r, Token::LocalAppData, clone_components(local));
    push_rep(r, Token::AppData, clone_components(&ctx.host.config_root));
    push_rep(r, Token::Documents, dir1(&ctx.host.home, "Documents"));
    push_rep(r, Token::Home, clone_components(&ctx.host.home));
    let steam_base = match &ctx.host.steam_root {
        Some(p) => clone_components(p),
        None => {
            let mut d: Vec<String> = Vec::new();
            push_lit(&mut d, "C:");
            push_lit(&mut d, "Program Files (x86)");
            push_lit(&mut d, "Steam");
            proof {
                assert(comps_view(d@) =~= default_steam_root());
            }
            d
        },
    };
    let acct = account_component(ctx);
    let sud = dir2(&steam_base, "userdata", acct.as_str());
    proof {
        let base_view = match &ctx.host.steam_root {
            Some(p) => comps_view(p@),
            None => default_steam_root(),
        };
        assert(comps_view(steam_base@) =~= base_view);
        assert(comps_view(sud@) =~= base_view + seq!["userdata"@, account_comp(*ctx)]);
    }
    push_rep(r, Token::SteamUserData, sud);
    proof {
        assert(reps_view(r@) =~= before + windows_reps(*ctx));
    }
}

fn add_mac(r: &mut Vec<Replacement>, ctx: &ResolutionContext)
    requires
        ctx.os == OsFamily::Mac,
    ensures
        reps_view(final(r)@) == reps_view(old(r)@) + mac_reps(*ctx),
{
    let ghost before = reps_view(r@);
    let support = dir2(&ctx.host.home, "Library", "Application Support");
    let acct = account_component(ctx);
    let sud = dir3(&support, "Steam", "userdata", acct.as_str());
    proof {
        assert(comps_view(sud@) =~= comps_view(ctx.host.home@)
            + seq!["Library"@, "Application Support"@]
            + seq!["Steam"@, "userdata"@, account_comp(*ctx)]);
    }
    push_rep(r, Token::SteamUserData, sud);
    match &ctx.prefix {
        Some(p) => {
            let user = dir3(p, "drive_c", "users", ctx.host.username.as_str());
            proof {
                assert(comps_view(user@) =~= prefix_user_dir(comps_view(p@), ctx.host.username@));
            }
            let win_appdata = dir1(&user, "AppData");
            let local = dir1(&win_appdata, "Local");
            push_rep(r, Token::LocalLow, dir1(&win_appdata, "LocalLow"));
            push_rep(r, Token::GogAppData, dir3(&local, "GOG.com", "Galaxy", "Applications"));
            push_rep(r, Token::LocalAppData, local);
            push_rep(r, Token::AppData, dir1(&win_appdata, "Roaming"));
            push_rep(r, Token::Documents, dir1(&user, "Documents"));
            push_rep(r, Token::Home, user);
        },
        None => {
            push_rep(r, Token::GogAppData, dir3(&support, "GOG.com", "Galaxy", "Applications"));
            push_rep(r, Token::AppData, clone_components(&support));
            push_rep(r, Token::Documents, dir1(&ctx.host.home, "Documents"));
            push_rep(r, Token::Home, clone_components(&ctx.host.home));
        },
    }
    proof {
        assert(reps_view(r@) =~= before + mac_reps(*ctx));
    }
}

/// Builds the ordered replacement list the context induces.
pub fn replacements(ctx: &ResolutionContext) -> (r: Vec<Replacement>)
    ensures
        reps_view(r@) == spec_replacements(*ctx),
{
    let mut r: Vec<Replacement> = Vec::new();
    proof {
        assert(reps_view(r@) =~= Seq::<(Token, Seq<Seq<char>>)>::empty());
    }
    match &ctx.installation_dir {
        Some(d) => {
            push_rep(&mut r, Token::GameRoot, clone_components(d));
        },
        None => {},
    }
    let ghost base = reps_view(r@);
    match ctx.os {
        OsFamily::Linux => add_linux(&mut r, ctx),
        OsFamily::Windows => add_windows(&mut r, ctx),
        OsFamily::Mac => add_mac(&mut r, ctx),
    }
    proof {
        assert(reps_view(r@) =~= spec_replacements(*ctx));
    }
    r
}

} // verus!
