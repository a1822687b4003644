//! Installed applications and the interfaces that discover them.
//!
//! Scanning launchers' databases and configuration files is filesystem
//! work done by the surrounding application; this module holds the data
//! the engines consume and the verified matching of scanned applications
//! against the rule catalog.

use crate::strings::{remove_chars, spec_remove, spec_trim, trim};
use crate::resolver::clone_components;
use vstd::prelude::*;

verus! {

/// One installed application, as a scanner reports it.
pub struct Game {
    pub name: String,
    /// The installation root's components, if known.
    pub installation_dir: Option<Vec<String>>,
    /// The compatibility prefix's components, if the application runs
    /// under a Windows-compatibility layer.
    pub prefix: Option<Vec<String>>,
    /// Which launcher reported the application.
    pub source: String,
}

/// The mathematical model of a [`Game`].
pub struct GameModel {
    pub name: Seq<char>,
    pub installation_dir: Option<Seq<Seq<char>>>,
    pub prefix: Option<Seq<Seq<char>>>,
    pub source: Seq<char>,
}

pub open spec fn opt_comps(o: Option<Vec<String>>) -> Option<Seq<Seq<char>>> {
    match o {
        Some(v) => Some(crate::paths::comps_view(v@)),
        None => None,
    }
}

impl View for Game {
    type V = GameModel;

    open spec fn view(&self) -> GameModel {
        GameModel {
            name: self.name@,
            installation_dir: opt_comps(self.installation_dir),
            prefix: opt_comps(self.prefix),
            source: self.source@,
        }
    }
}

/// The models of a list of games.
pub open spec fn games_view(s: Seq<Game>) -> Seq<GameModel> {
    Seq::new(s.len(), |i: int| s[i]@)
}

/// A source of installed applications; each launcher's scanner walks that
/// launcher's own records on disk, so the implementations live with the
/// application around this library.
pub trait Scanner {
    fn get_games() -> Vec<Game>;
}

/// A source for the single application a launcher is currently running,
/// read from that launcher's environment by the surrounding application.
pub trait Launcher {
    fn get_game() -> Option<Game>;
}

/// Scans GOG Galaxy's local database.
pub struct GOGScanner;

/// Scans the Heroic launcher's installation records.
pub struct HeroicScanner;

/// Scans the Lutris launcher's local database.
pub struct LutrisScanner;

/// Scans Steam's library folders.
pub struct SteamScanner;

/// Scans the Xbox application's game directories.
pub struct XboxScanner;

/// Resolves the application Heroic is currently launching.
pub struct Heroic;

/// Resolves the application Lutris is currently launching.
pub struct Lutris;

/// One Steam login: the account's display name.
pub struct LoginUser {
    pub persona_name: String,
}

/// The offset between 64-bit Steam account ids and the 32-bit account
/// number used in user-data directory names.
pub const STEAM_ID64_BASE: u64 = 76561197960265728;

impl SteamScanner {
    /// The account number a 64-bit Steam id denotes.
    pub fn id64_to_id3(id64: u64) -> (r: u64)
        requires
            id64 >= STEAM_ID64_BASE,
        ensures
            r == id64 - STEAM_ID64_BASE,
    {
        id64 - STEAM_ID64_BASE
    }
}

/// The decoration characters stripped from scanned application names
/// before they are matched against the rule catalog.
pub open spec fn mark_chars() -> Seq<char> {
    seq!['\u{2122}', '\u{ae}']
}

/// A scanned name, decoration characters removed and whitespace trimmed:
/// the form under which the rule catalog knows the application.
pub open spec fn spec_clean_name(s: Seq<char>) -> Seq<char> {
    spec_trim(spec_remove(s, mark_chars()))
}

/// Cleans a scanned application name for catalog lookup.
pub fn clean_name(name: &str) -> (r: String)
    ensures
        r@ == spec_clean_name(name@),
{
    let mut banned: Vec<char> = Vec::new();
    banned.push('\u{2122}');
    banned.push('\u{ae}');
    proof {
        assert(banned@ =~= mark_chars());
    }
    let stripped = remove_chars(name, &banned);
    trim(stripped.as_str())
}

/// The scanned games the catalog knows, each under its cleaned name.
pub open spec fn spec_installed(gs: Seq<GameModel>, names: Seq<Seq<char>>) -> Seq<GameModel>
    decreases gs.len(),
{
    if gs.len() == 0 {
        Seq::empty()
    } else {
        let cleaned = spec_clean_name(gs[0].name);
        (if names.contains(cleaned) {
            seq![GameModel { name: cleaned, ..gs[0] }]
        } else {
            Seq::<GameModel>::empty()
        }) + spec_installed(gs.drop_first(), names)
    }
}

pub proof fn lemma_installed_push(gs: Seq<GameModel>, g: GameModel, names: Seq<Seq<char>>)
    ensures
        spec_installed(gs.push(g), names) == spec_installed(gs, names) + (if names.contains(
            spec_clean_name(g.name),
        ) {
            seq![GameModel { name: spec_clean_name(g.name), ..g }]
        } else {
            Seq::<GameModel>::empty()
        }),
    decreases gs.len(),
{
    let tail = if names.contains(spec_clean_name(g.name)) {
        seq![GameModel { name: spec_clean_name(g.name), ..g }]
    } else {
        Seq::<GameModel>::empty()
    };
    if gs.len() == 0 {
        assert(gs.push(g).drop_first() =~= Seq::<GameModel>::empty());
        assert(gs.push(g)[0] == g);
        assert(spec_installed(gs.push(g).drop_first(), names) == Seq::<GameModel>::empty());
        assert(spec_installed(gs.push(g), names) == tail + Seq::<GameModel>::empty());
        assert(tail + Seq::<GameModel>::empty() =~= tail);
        assert(spec_installed(gs, names) + tail =~= tail);
    } else {
        lemma_installed_push(gs.drop_first(), g, names);
        assert(gs.push(g).drop_first() =~= gs.drop_first().push(g));
        assert(gs.push(g)[0] == gs[0]);
        let head = if names.contains(spec_clean_name(gs[0].name)) {
            seq![GameModel { name: spec_clean_name(gs[0].name), ..gs[0] }]
        } else {
            Seq::<GameModel>::empty()
        };
        assert(spec_installed(gs.push(g), names) == head + (spec_installed(gs.drop_first(), names)
            + tail));
        assert(head + (spec_installed(gs.drop_first(), names) + tail) =~= (head + spec_installed(
            gs.drop_first(),
            names,
        )) + tail);
    }
}

/// Index of the first installed game with the given name, if any; a
/// restore for an absent application fails with `ApplicationNotFound`.
pub open spec fn spec_find_game(installed: Seq<Game>, name: Seq<char>) -> Option<int>
    decreases installed.len(),
{
    if installed.len() == 0 {
        None
    } else if installed[0].name@ == name {
        Some(0)
    } else {
        match spec_find_game(installed.drop_first(), name) {
            Some(i) => Some(i + 1),
            None => None,
        }
    }
}

pub proof fn lemma_find_game(installed: Seq<Game>, name: Seq<char>)
    ensures
        match spec_find_game(installed, name) {
            Some(i) => 0 <= i < installed.len() && installed[i].name@ == name && forall|j: int|
                0 <= j < i ==> (#[trigger] installed[j]).name@ != name,
            None => forall|j: int|
                0 <= j < installed.len() ==> (#[trigger] installed[j]).name@ != name,
        },
    decreases installed.len(),
{
    if installed.len() > 0 && installed[0].name@ != name {
        let d = installed.drop_first();
        lemma_find_game(d, name);
        match spec_find_game(d, name) {
            Some(i) => {
                assert(d[i] == installed[i + 1]);
                assert forall|j: int| 0 <= j < i + 1 implies (#[trigger] installed[j]).name@
                    != name by {
                    if j > 0 {
                        assert(d[j - 1] == installed[j]);
                    }
                }
            },
            None => {
                assert forall|j: int| 0 <= j < installed.len() implies (#[trigger] installed[j]).name@
                    != name by {
                    if j > 0 {
                        assert(d[j - 1] == installed[j]);
                    }
                }
            },
        }
    }
}

/// Finds the installed game a manifest names.
pub fn find_game(installed: &Vec<Game>, name: &String) -> (r: Option<usize>)
    ensures
        match r {
            Some(i) => spec_find_game(installed@, name@) == Some(i as int),
            None => spec_find_game(installed@, name@) is None,
        },
{
    let mut i: usize = 0;
    while i < installed.len()
        invariant
            0 <= i <= installed@.len(),
            forall|j: int| 0 <= j < i ==> (#[trigger] installed@[j]).name@ != name@,
        decreases installed@.len() - i,
    {
        if installed[i].name.eq(name) {
            proof {
                lemma_find_game(installed@, name@);
                match spec_find_game(installed@, name@) {
                    Some(k) => {
                        assert(!(k < i) && !(k > i));
                    },
                    None => {
                        assert(installed@[i as int].name@ == name@);
                    },
                }
            }
            return Some(i);
        }
        i += 1;
    }
    proof {
        lemma_find_game(installed@, name@);
    }
    None
}

/// Whether a list of names contains the given one.
fn names_contain(names: &Vec<String>, name: &String) -> (r: bool)
    ensures
        r == crate::paths::comps_view(names@).contains(name@),
{
    let ghost nv = crate::paths::comps_view(names@);
    let mut i: usize = 0;
    while i < names.len()
        invariant
            nv == crate::paths::comps_view(names@),
            0 <= i <= nv.len(),
            forall|j: int| 0 <= j < i ==> nv[j] != name@,
        decreases nv.len() - i,
    {
        if names[i].eq(name) {
            proof {
                assert(nv[i as int] == name@);
            }
            return true;
        }
        i += 1;
    }
    proof {
        if nv.contains(name@) {
            let j = choose|j: int| 0 <= j < nv.len() && nv[j] == name@;
            assert(nv[j] != name@);
        }
    }
    false
}

fn clone_opt_components(o: &Option<Vec<String>>) -> (r: Option<Vec<String>>)
    ensures
        opt_comps(r) == opt_comps(*o),
{
    match o {
        Some(v) => Some(clone_components(v)),
        None => None,
    }
}

/// Filters the scanned games down to those the rule catalog knows,
/// renaming each to its cleaned name.
pub fn get_installed_games(games: &Vec<Game>, db_names: &Vec<String>) -> (r: Vec<Game>)
    ensures
        games_view(r@) == spec_installed(games_view(games@), crate::paths::comps_view(db_names@)),
{
    let ghost gv = games_view(games@);
    let ghost nv = crate::paths::comps_view(db_names@);
    let mut r: Vec<Game> = Vec::new();
    let mut i: usize = 0;
    proof {
        assert(gv.take(0) =~= Seq::<GameModel>::empty());
        assert(games_view(r@) =~= Seq::<GameModel>::empty());
    }
    while i < games.len()
        invariant
            gv == games_view(games@),
            nv == crate::paths::comps_view(db_names@),
            0 <= i <= gv.len(),
            games_view(r@) == spec_installed(gv.take(i as int), nv),
        decreases gv.len() - i,
    {
        let g = &games[i];
        proof {
            assert(gv[i as int] == g@);
        }
        let cleaned = clean_name(g.name.as_str());
        let ghost before = games_view(r@);
        if names_contain(db_names, &cleaned) {
            let kept = Game {
                name: cleaned,
                installation_dir: clone_opt_components(&g.installation_dir),
                prefix: clone_opt_components(&g.prefix),
                source: g.source.clone(),
            };
            proof {
                assert(kept@ == GameModel { name: spec_clean_name(g@.name), ..g@ });
            }
            r.push(kept);
            proof {
                assert(games_view(r@) =~= before.push(GameModel {
                    name: spec_clean_name(g@.name),
                    ..g@
                }));
            }
        }
        proof {
            lemma_installed_push(gv.take(i as int), gv[i as int], nv);
            assert(gv.take(i as int).push(gv[i as int]) =~= gv.take(i + 1));
            if nv.contains(spec_clean_name(g@.name)) {
                assert(games_view(r@) =~= before + seq![GameModel {
                    name: spec_clean_name(g@.name),
                    ..g@
                }]);
            }
        }
        i += 1;
    }
    proof {
        assert(gv.take(gv.len() as int) =~= gv);
    }
    r
}

} // verus!
