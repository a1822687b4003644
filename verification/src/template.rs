//! Reading and writing portable paths as text.
//!
//! In manifests and in the rule catalog a portable path is one string,
//! components separated by `/`, each component either a placeholder token's
//! name in braces or a literal.  A component must equal a token's name
//! exactly to count as that token; names occurring inside longer components
//! stay literal.

use crate::paths::{comps_view, spec_join, spec_split, split_path, join_path};
use crate::resolver::{PartModel, PathPart, PortablePath, Token};
use vstd::prelude::*;

verus! {

/// The name of each placeholder token as it appears in path text.
pub open spec fn spec_token_text(t: Token) -> Seq<char> {
    match t {
        Token::GameRoot => "{GameRoot}"@,
        Token::AppData => "{AppData}"@,
        Token::Documents => "{Documents}"@,
        Token::Home => "{Home}"@,
        Token::LocalAppData => "{LocalAppData}"@,
        Token::LocalLow => "{LocalLow}"@,
        Token::GogAppData => "{GOGAppData}"@,
        Token::SteamUserData => "{SteamUserData}"@,
        Token::XdgConfig => "{XDGConfig}"@,
        Token::XdgData => "{XDGData}"@,
    }
}

/// A component is read back as the token whose name it equals, else as a
/// literal.
pub open spec fn spec_classify(c: Seq<char>) -> PartModel {
    if c == spec_token_text(Token::GameRoot) {
        PartModel::Placeholder(Token::GameRoot)
    } else if c == spec_token_text(Token::AppData) {
        PartModel::Placeholder(Token::AppData)
    } else if c == spec_token_text(Token::Documents) {
        PartModel::Placeholder(Token::Documents)
    } else if c == spec_token_text(Token::Home) {
        PartModel::Placeholder(Token::Home)
    } else if c == spec_token_text(Token::LocalAppData) {
        PartModel::Placeholder(Token::LocalAppData)
    } else if c == spec_token_text(Token::LocalLow) {
        PartModel::Placeholder(Token::LocalLow)
    } else if c == spec_token_text(Token::GogAppData) {
        PartModel::Placeholder(Token::GogAppData)
    } else if c == spec_token_text(Token::SteamUserData) {
        PartModel::Placeholder(Token::SteamUserData)
    } else if c == spec_token_text(Token::XdgConfig) {
        PartModel::Placeholder(Token::XdgConfig)
    } else if c == spec_token_text(Token::XdgData) {
        PartModel::Placeholder(Token::XdgData)
    } else {
        PartModel::Literal(c)
    }
}

/// The parts a path's text denotes.
pub open spec fn spec_parse_portable(s: Seq<char>) -> Seq<PartModel> {
    spec_split(s).map_values(|c: Seq<char>| spec_classify(c))
}

/// The text one part renders to.
pub open spec fn part_text(p: PartModel) -> Seq<char> {
    match p {
        PartModel::Placeholder(t) => spec_token_text(t),
        PartModel::Literal(s) => s,
    }
}

/// The text a portable path renders to.
pub open spec fn spec_render(parts: Seq<PartModel>) -> Seq<char> {
    spec_join(parts.map_values(|p: PartModel| part_text(p)))
}

/// The name of a placeholder token as path text.
pub fn token_text(t: Token) -> (r: &'static str)
    ensures
        r@ == spec_token_text(t),
{
    match t {
        Token::GameRoot => "{GameRoot}",
        Token::AppData => "{AppData}",
        Token::Documents => "{Documents}",
        Token::Home => "{Home}",
        Token::LocalAppData => "{LocalAppData}",
        Token::LocalLow => "{LocalLow}",
        Token::GogAppData => "{GOGAppData}",
        Token::SteamUserData => "{SteamUserData}",
        Token::XdgConfig => "{XDGConfig}",
        Token::XdgData => "{XDGData}",
    }
}

/// Whether a component equals a token's name.
fn matches_token(c: &String, t: Token) -> (r: bool)
    ensures
        r == (c@ == spec_token_text(t)),
{
    let name = String::from_str(token_text(t));
    c.eq(&name)
}

/// Reads one component back as a part.
fn classify_component(c: &String) -> (r: PathPart)
    ensures
        r@ == spec_classify(c@),
{
    if matches_token(c, Token::GameRoot) {
        PathPart::Placeholder(Token::GameRoot)
    } else if matches_token(c, Token::AppData) {
        PathPart::Placeholder(Token::AppData)
    } else if matches_token(c, Token::Documents) {
        PathPart::Placeholder(Token::Documents)
    } else if matches_token(c, Token::Home) {
        PathPart::Placeholder(Token::Home)
    } else if matches_token(c, Token::LocalAppData) {
        PathPart::Placeholder(Token::LocalAppData)
    } else if matches_token(c, Token::LocalLow) {
        PathPart::Placeholder(Token::LocalLow)
    } else if matches_token(c, Token::GogAppData) {
        PathPart::Placeholder(Token::GogAppData)
    } else if matches_token(c, Token::SteamUserData) {
        PathPart::Placeholder(Token::SteamUserData)
    } else if matches_token(c, Token::XdgConfig) {
        PathPart::Placeholder(Token::XdgConfig)
    } else if matches_token(c, Token::XdgData) {
        PathPart::Placeholder(Token::XdgData)
    } else {
        PathPart::Literal(c.clone())
    }
}

/// Reads a portable path from its text.
pub fn parse_portable(s: &str) -> (r: PortablePath)
    ensures
        r@ == spec_parse_portable(s@),
{
    let comps = split_path(s);
    let ghost cv = comps_view(comps@);
    let mut parts: Vec<PathPart> = Vec::new();
    let mut i: usize = 0;
    while i < comps.len()
        invariant
            cv == comps_view(comps@),
            cv == spec_split(s@),
            0 <= i <= comps@.len(),
            parts@.len() == i,
            forall|j: int| 0 <= j < i ==> #[trigger] parts@[j]@ == spec_classify(cv[j]),
        decreases comps@.len() - i,
    {
        let p = classify_component(&comps[i]);
        parts.push(p);
        i += 1;
    }
    let r = PortablePath { parts };
    proof {
        assert forall|j: int| 0 <= j < r@.len() implies r@[j] == spec_parse_portable(s@)[j] by {
            assert(spec_parse_portable(s@)[j] == spec_classify(cv[j]));
        }
        assert(r@ =~= spec_parse_portable(s@));
    }
    r
}

/// Writes a portable path out as text.
pub fn render_portable(p: &PortablePath) -> (r: String)
    ensures
        r@ == spec_render(p@),
{
    let ghost texts = p@.map_values(|q: PartModel| part_text(q));
    let mut comps: Vec<String> = Vec::new();
    let mut i: usize = 0;
    while i < p.parts.len()
        invariant
            texts == p@.map_values(|q: PartModel| part_text(q)),
            p@.len() == p.parts@.len(),
            0 <= i <= p.parts@.len(),
            comps@.len() == i,
            forall|j: int| 0 <= j < i ==> #[trigger] comps@[j]@ == texts[j],
        decreases p.parts@.len() - i,
    {
        proof {
            assert(p@[i as int] == p.parts@[i as int]@);
        }
        let c = match &p.parts[i] {
            PathPart::Placeholder(t) => String::from_str(token_text(*t)),
            PathPart::Literal(s) => s.clone(),
        };
        comps.push(c);
        i += 1;
    }
    if comps.len() == 0 {
        proof {
            assert(texts =~= Seq::<Seq<char>>::empty());
            assert(spec_render(p@) == Seq::<char>::empty());
        }
        return String::new();
    }
    let r = join_path(&comps);
    proof {
        assert(comps_view(comps@) =~= texts);
    }
    r
}

/// The last component of a path's text: its file name.
pub fn file_name(s: &str) -> (r: String)
    ensures
        r@ == spec_split(s@).last(),
{
    let mut comps = split_path(s);
    proof {
        assert(comps@.len() == spec_split(s@).len());
        assert(comps@.len() >= 1);
        assert(comps_view(comps@)[comps@.len() - 1] == spec_split(s@).last());
    }
    let r = comps.pop().unwrap();
    r
}

} // verus!
