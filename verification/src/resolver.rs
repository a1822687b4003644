//! The placeholder resolver.
//!
//! A portable path is a list of parts, each either a placeholder token or a
//! literal component.  Tokens are matched as whole components, never as
//! substrings of a component.  `expand` replaces each token by the directory
//! the context resolves it to; `shrink` replaces the first resolving
//! directory that prefixes a concrete path by its token.  Expanding a shrunk
//! path always yields the original concrete path back: the central
//! correctness invariant of the library.

use crate::errors::EngineError;
use crate::paths::comps_view;
use vstd::prelude::*;

verus! {

/// The operating-system family a resolution context describes.
#[derive(Clone, Copy, PartialEq, Eq, Structural, Debug)]
pub enum OsFamily {
    Linux,
    Windows,
    Mac,
}

/// The closed vocabulary of placeholder tokens.
#[derive(Clone, Copy, PartialEq, Eq, Structural, Debug)]
pub enum Token {
    /// The application's installation directory.
    GameRoot,
    /// The roaming application-data directory.
    AppData,
    /// The user's documents directory.
    Documents,
    /// The user's home directory.
    Home,
    /// The local application-data directory.
    LocalAppData,
    /// The low-integrity local application-data directory.
    LocalLow,
    /// The GOG Galaxy application-data directory.
    GogAppData,
    /// The per-account Steam cloud-save directory.
    SteamUserData,
    /// The host's own configuration root.
    XdgConfig,
    /// The host's own data root.
    XdgData,
}

/// One part of a portable path: a placeholder or a literal component.
pub enum PathPart {
    Placeholder(Token),
    Literal(String),
}

/// The mathematical model of a [`PathPart`].
pub enum PartModel {
    Placeholder(Token),
    Literal(Seq<char>),
}

impl View for PathPart {
    type V = PartModel;

    open spec fn view(&self) -> PartModel {
        match self {
            PathPart::Placeholder(t) => PartModel::Placeholder(*t),
            PathPart::Literal(s) => PartModel::Literal(s@),
        }
    }
}

/// A portable path: placeholder tokens interleaved with literal components.
pub struct PortablePath {
    pub parts: Vec<PathPart>,
}

impl View for PortablePath {
    type V = Seq<PartModel>;

    open spec fn view(&self) -> Seq<PartModel> {
        Seq::new(self.parts@.len(), |i: int| self.parts@[i]@)
    }
}

/// One resolved placeholder: the token and the directory it stands for.
pub struct Replacement {
    pub token: Token,
    pub dir: Vec<String>,
}

/// The model of a replacement list.
pub open spec fn reps_view(v: Seq<Replacement>) -> Seq<(Token, Seq<Seq<char>>)> {
    Seq::new(v.len(), |i: int| (v[i].token, comps_view(v[i].dir@)))
}

/// Each token occurs at most once in the list.
pub open spec fn unique_tokens(reps: Seq<(Token, Seq<Seq<char>>)>) -> bool {
    forall|i: int, j: int| 0 <= i < j < reps.len() ==> (#[trigger] reps[i]).0 != (#[trigger] reps[j]).0
}

/// The directory the first entry for `t` resolves to, if any.
pub open spec fn spec_lookup(reps: Seq<(Token, Seq<Seq<char>>)>, t: Token) -> Option<Seq<Seq<char>>>
    decreases reps.len(),
{
    if reps.len() == 0 {
        None
    } else if reps[0].0 == t {
        Some(reps[0].1)
    } else {
        spec_lookup(reps.drop_first(), t)
    }
}

/// The components one part contributes to an expansion.
pub open spec fn resolve_part(p: PartModel, reps: Seq<(Token, Seq<Seq<char>>)>) -> Option<
    Seq<Seq<char>>,
> {
    match p {
        PartModel::Literal(s) => Some(seq![s]),
        PartModel::Placeholder(t) => spec_lookup(reps, t),
    }
}

/// Token-for-token expansion of a portable path, `None` on the first token
/// the replacement list does not resolve.
pub open spec fn spec_expand(parts: Seq<PartModel>, reps: Seq<(Token, Seq<Seq<char>>)>) -> Option<
    Seq<Seq<char>>,
>
    decreases parts.len(),
{
    if parts.len() == 0 {
        Some(Seq::empty())
    } else {
        match (resolve_part(parts[0], reps), spec_expand(parts.drop_first(), reps)) {
            (Some(d), Some(r)) => Some(d + r),
            _ => None,
        }
    }
}

/// The leftmost token the replacement list does not resolve, if any.
pub open spec fn first_unresolved(parts: Seq<PartModel>, reps: Seq<(Token, Seq<Seq<char>>)>) -> Option<
    Token,
>
    decreases parts.len(),
{
    if parts.len() == 0 {
        None
    } else {
        match parts[0] {
            PartModel::Placeholder(t) => if spec_lookup(reps, t) is None {
                Some(t)
            } else {
                first_unresolved(parts.drop_first(), reps)
            },
            PartModel::Literal(_) => first_unresolved(parts.drop_first(), reps),
        }
    }
}

/// A path's components wrapped as all-literal parts.
pub open spec fn literal_parts(p: Seq<Seq<char>>) -> Seq<PartModel> {
    p.map_values(|s: Seq<char>| PartModel::Literal(s))
}

/// `pre` is a leading run of `p`'s components.
pub open spec fn dir_prefix(pre: Seq<Seq<char>>, p: Seq<Seq<char>>) -> bool {
    pre.len() <= p.len() && pre == p.take(pre.len() as int)
}

/// Best-effort inverse of expansion: the first entry whose directory
/// prefixes the path replaces that prefix by its token; with no such entry
/// the path stays concrete, wrapped as literals.
pub open spec fn spec_shrink(path: Seq<Seq<char>>, reps: Seq<(Token, Seq<Seq<char>>)>) -> Seq<
    PartModel,
>
    decreases reps.len(),
{
    if reps.len() == 0 {
        literal_parts(path)
    } else if dir_prefix(reps[0].1, path) {
        seq![PartModel::Placeholder(reps[0].0)] + literal_parts(path.skip(reps[0].1.len() as int))
    } else {
        spec_shrink(path, reps.drop_first())
    }
}

proof fn lemma_lookup_found(reps: Seq<(Token, Seq<Seq<char>>)>, i: int)
    requires
        0 <= i < reps.len(),
        forall|j: int| 0 <= j < i ==> (#[trigger] reps[j]).0 != reps[i].0,
    ensures
        spec_lookup(reps, reps[i].0) == Some(reps[i].1),
    decreases i,
{
    if i > 0 {
        lemma_lookup_found(reps.drop_first(), i - 1);
        assert(reps.drop_first()[i - 1] == reps[i]);
        assert forall|j: int| 0 <= j < i - 1 implies (#[trigger] reps.drop_first()[j]).0
            != reps.drop_first()[i - 1].0 by {
            assert(reps.drop_first()[j] == reps[j + 1]);
        }
    }
}

proof fn lemma_expand_literals(p: Seq<Seq<char>>, reps: Seq<(Token, Seq<Seq<char>>)>)
    ensures
        spec_expand(literal_parts(p), reps) == Some(p),
    decreases p.len(),
{
    if p.len() == 0 {
        assert(literal_parts(p) =~= Seq::<PartModel>::empty());
        assert(p =~= Seq::<Seq<char>>::empty());
    } else {
        lemma_expand_literals(p.drop_first(), reps);
        assert(literal_parts(p).drop_first() =~= literal_parts(p.drop_first()));
        assert(literal_parts(p)[0] == PartModel::Literal(p[0]));
        assert(seq![p[0]] + p.drop_first() =~= p);
    }
}

proof fn lemma_roundtrip_helper(
    path: Seq<Seq<char>>,
    reps: Seq<(Token, Seq<Seq<char>>)>,
    k: int,
)
    requires
        unique_tokens(reps),
        0 <= k <= reps.len(),
        forall|j: int| 0 <= j < k ==> !dir_prefix((#[trigger] reps[j]).1, path),
    ensures
        spec_expand(spec_shrink(path, reps.skip(k)), reps) == Some(path),
    decreases reps.len() - k,
{
    if k == reps.len() {
        assert(reps.skip(k) =~= Seq::<(Token, Seq<Seq<char>>)>::empty());
        lemma_expand_literals(path, reps);
    } else {
        assert(reps.skip(k)[0] == reps[k]);
        if dir_prefix(reps[k].1, path) {
            let d = reps[k].1;
            let rest = path.skip(d.len() as int);
            let shrunk = seq![PartModel::Placeholder(reps[k].0)] + literal_parts(rest);
            assert(spec_shrink(path, reps.skip(k)) == shrunk);
            assert forall|j: int| 0 <= j < k implies (#[trigger] reps[j]).0 != reps[k].0 by {}
            lemma_lookup_found(reps, k);
            assert(shrunk[0] == PartModel::Placeholder(reps[k].0));
            assert(resolve_part(shrunk[0], reps) == Some(d));
            lemma_expand_literals(rest, reps);
            assert(shrunk.drop_first() =~= literal_parts(rest));
            assert(spec_expand(shrunk, reps) == Some(d + rest));
            assert(d + rest =~= path);
        } else {
            assert(reps.skip(k).drop_first() =~= reps.skip(k + 1));
            lemma_roundtrip_helper(path, reps, k + 1);
        }
    }
}

/// Law: shrinking any concrete path and expanding the result yields the
/// path back, whenever each token resolves to at most one directory.
pub proof fn lemma_expand_shrink_roundtrip(path: Seq<Seq<char>>, reps: Seq<(Token, Seq<Seq<char>>)>)
    requires
        unique_tokens(reps),
    ensures
        spec_expand(spec_shrink(path, reps), reps) == Some(path),
{
    assert(reps.skip(0) =~= reps);
    lemma_roundtrip_helper(path, reps, 0);
}

/// Law: for a template the context resolves, expanding, shrinking and
/// expanding again gives exactly the template's expansion.
pub proof fn lemma_template_roundtrip(
    template: Seq<PartModel>,
    reps: Seq<(Token, Seq<Seq<char>>)>,
    concrete: Seq<Seq<char>>,
)
    requires
        unique_tokens(reps),
        spec_expand(template, reps) == Some(concrete),
    ensures
        spec_expand(spec_shrink(concrete, reps), reps) == spec_expand(template, reps),
{
    lemma_expand_shrink_roundtrip(concrete, reps);
}

proof fn lemma_all_resolved(parts: Seq<PartModel>, reps: Seq<(Token, Seq<Seq<char>>)>)
    requires
        forall|j: int| 0 <= j < parts.len() ==> resolve_part(#[trigger] parts[j], reps) is Some,
    ensures
        first_unresolved(parts, reps) is None,
    decreases parts.len(),
{
    if parts.len() > 0 {
        assert forall|j: int| 0 <= j < parts.drop_first().len() implies resolve_part(
            #[trigger] parts.drop_first()[j],
            reps,
        ) is Some by {
            assert(parts.drop_first()[j] == parts[j + 1]);
        }
        lemma_all_resolved(parts.drop_first(), reps);
    }
}

proof fn lemma_first_unresolved_at(parts: Seq<PartModel>, reps: Seq<(Token, Seq<Seq<char>>)>, i: int)
    requires
        0 <= i < parts.len(),
        forall|j: int| 0 <= j < i ==> resolve_part(#[trigger] parts[j], reps) is Some,
        resolve_part(parts[i], reps) is None,
    ensures
        spec_expand(parts, reps) is None,
        match parts[i] {
            PartModel::Placeholder(t) => first_unresolved(parts, reps) == Some(t),
            PartModel::Literal(_) => false,
        },
    decreases i,
{
    if i == 0 {
        match parts[0] {
            PartModel::Placeholder(t) => {},
            PartModel::Literal(_) => {},
        }
    } else {
        assert forall|j: int| 0 <= j < i - 1 implies resolve_part(
            #[trigger] parts.drop_first()[j],
            reps,
        ) is Some by {
            assert(parts.drop_first()[j] == parts[j + 1]);
        }
        assert(parts.drop_first()[i - 1] == parts[i]);
        lemma_first_unresolved_at(parts.drop_first(), reps, i - 1);
    }
}

proof fn lemma_expand_push(q: Seq<PartModel>, x: PartModel, reps: Seq<(Token, Seq<Seq<char>>)>)
    ensures
        spec_expand(q.push(x), reps) == match (spec_expand(q, reps), resolve_part(x, reps)) {
            (Some(v), Some(d)) => Some(v + d),
            _ => None::<Seq<Seq<char>>>,
        },
    decreases q.len(),
{
    if q.len() == 0 {
        assert(q.push(x).drop_first() =~= Seq::<PartModel>::empty());
        assert(q.push(x)[0] == x);
        assert(spec_expand(q.push(x).drop_first(), reps) == Some(Seq::<Seq<char>>::empty()));
        assert(q =~= Seq::<PartModel>::empty());
        assert(spec_expand(q, reps) == Some(Seq::<Seq<char>>::empty()));
        match resolve_part(x, reps) {
            Some(d) => {
                assert(spec_expand(q.push(x), reps) == Some(d + Seq::<Seq<char>>::empty()));
                assert(d + Seq::<Seq<char>>::empty() =~= d);
                assert(Seq::<Seq<char>>::empty() + d =~= d);
            },
            None => {},
        }
    } else {
        lemma_expand_push(q.drop_first(), x, reps);
        assert(q.push(x).drop_first() =~= q.drop_first().push(x));
        assert(q.push(x)[0] == q[0]);
        match (resolve_part(q[0], reps), spec_expand(q.drop_first(), reps), resolve_part(x, reps)) {
            (Some(d0), Some(v), Some(d)) => {
                assert(d0 + (v + d) =~= (d0 + v) + d);
            },
            _ => {},
        }
    }
}

/// Expands a portable path against a replacement list, reporting the first
/// token the list does not resolve.
pub fn expand(p: &PortablePath, reps: &Vec<Replacement>) -> (r: Result<Vec<String>, EngineError>)
    ensures
        match r {
            Ok(v) => spec_expand(p@, reps_view(reps@)) == Some(comps_view(v@)),
            Err(e) => {
                &&& spec_expand(p@, reps_view(reps@)) is None
                &&& first_unresolved(p@, reps_view(reps@)) matches Some(t) && e
                    == EngineError::MissingContext(t)
            },
        },
{
    let ghost rv = reps_view(reps@);
    let mut acc: Vec<String> = Vec::new();
    let mut i: usize = 0;
    proof {
        assert(p@.take(0) =~= Seq::<PartModel>::empty());
        assert(comps_view(acc@) =~= Seq::<Seq<char>>::empty());
    }
    while i < p.parts.len()
        invariant
            0 <= i <= p.parts@.len(),
            rv == reps_view(reps@),
            p@.len() == p.parts@.len(),
            spec_expand(p@.take(i as int), rv) == Some(comps_view(acc@)),
            forall|j: int| 0 <= j < i ==> resolve_part(#[trigger] p@[j], rv) is Some,
        decreases p.parts@.len() - i,
    {
        proof {
            assert(p@[i as int] == p.parts@[i as int]@);
        }
        match &p.parts[i] {
            PathPart::Literal(s) => {
                let ghost before = comps_view(acc@);
                acc.push(s.clone());
                proof {
                    lemma_expand_push(p@.take(i as int), p@[i as int], rv);
                    assert(p@.take(i as int).push(p@[i as int]) =~= p@.take(i + 1));
                    assert(resolve_part(p@[i as int], rv) == Some(seq![s@]));
                    assert(comps_view(acc@) =~= before + seq![s@]);
                }
            },
            PathPart::Placeholder(t) => {
                let tok = *t;
                match lookup_dir(reps, tok) {
                    Some(dir) => {
                        let ghost before = comps_view(acc@);
                        let mut k: usize = 0;
                        while k < dir.len()
                            invariant
                                0 <= k <= dir@.len(),
                                comps_view(acc@) =~= before + comps_view(dir@).take(k as int),
                            decreases dir@.len() - k,
                        {
                            let c = dir[k].clone();
                            let ghost cv = c@;
                            let ghost acc0 = comps_view(acc@);
                            acc.push(c);
                            proof {
                                assert(cv == dir@[k as int]@);
                                assert(comps_view(acc@) =~= acc0.push(cv));
                                assert(comps_view(dir@).take(k + 1) =~= comps_view(dir@).take(
                                    k as int,
                                ).push(dir@[k as int]@));
                                assert(comps_view(acc@) =~= before + comps_view(dir@).take(k + 1));
                            }
                            k += 1;
                        }
                        proof {
                            lemma_expand_push(p@.take(i as int), p@[i as int], rv);
                            assert(p@.take(i as int).push(p@[i as int]) =~= p@.take(i + 1));
                            assert(comps_view(dir@).take(dir@.len() as int) =~= comps_view(dir@));
                            assert(comps_view(acc@) =~= before + comps_view(dir@));
                        }
                    },
                    None => {
                        proof {
                            lemma_first_unresolved_at(p@, rv, i as int);
                        }
                        return Err(EngineError::MissingContext(tok));
                    },
                }
            },
        }
        i += 1;
    }
    proof {
        assert(p@.take(p@.len() as int) =~= p@);
    }
    Ok(acc)
}

/// Looks a token up in a replacement list, returning a copy of its directory.
fn lookup_dir(reps: &Vec<Replacement>, t: Token) -> (r: Option<Vec<String>>)
    ensures
        match r {
            Some(v) => spec_lookup(reps_view(reps@), t) == Some(comps_view(v@)),
            None => spec_lookup(reps_view(reps@), t) is None,
        },
{
    let ghost rv = reps_view(reps@);
    let mut i: usize = 0;
    proof {
        assert(rv.skip(0) =~= rv);
    }
    while i < reps.len()
        invariant
            0 <= i <= reps@.len(),
            rv == reps_view(reps@),
            spec_lookup(rv, t) == spec_lookup(rv.skip(i as int), t),
        decreases reps@.len() - i,
    {
        proof {
            assert(rv.skip(i as int)[0] == rv[i as int]);
            assert(rv.skip(i as int).drop_first() =~= rv.skip(i + 1));
        }
        if reps[i].token == t {
            let d = clone_components(&reps[i].dir);
            return Some(d);
        }
        i += 1;
    }
    proof {
        assert(rv.skip(rv.len() as int) =~= Seq::<(Token, Seq<Seq<char>>)>::empty());
    }
    None
}

/// Copies a component list.
pub fn clone_components(v: &Vec<String>) -> (r: Vec<String>)
    ensures
        r@ == v@,
{
    let mut r: Vec<String> = Vec::new();
    let mut i: usize = 0;
    while i < v.len()
        invariant
            0 <= i <= v@.len(),
            r@ =~= v@.take(i as int),
        decreases v@.len() - i,
    {
        r.push(v[i].clone());
        proof {
            assert(v@.take(i + 1) =~= v@.take(i as int).push(v@[i as int]));
        }
        i += 1;
    }
    proof {
        assert(v@.take(v@.len() as int) =~= v@);
    }
    r
}

/// Whether `pre`'s components are a leading run of `p`'s.
pub fn is_dir_prefix(pre: &Vec<String>, p: &Vec<String>) -> (r: bool)
    ensures
        r == dir_prefix(comps_view(pre@), comps_view(p@)),
{
    if pre.len() > p.len() {
        proof {
            assert(!dir_prefix(comps_view(pre@), comps_view(p@)));
        }
        return false;
    }
    let mut i: usize = 0;
    while i < pre.len()
        invariant
            0 <= i <= pre@.len() <= p@.len(),
            forall|j: int| 0 <= j < i ==> comps_view(pre@)[j] == comps_view(p@)[j],
        decreases pre@.len() - i,
    {
        if !pre[i].eq(&p[i]) {
            proof {
                assert(comps_view(pre@)[i as int] != comps_view(p@).take(pre@.len() as int)[i as int]);
            }
            return false;
        }
        i += 1;
    }
    proof {
        assert(comps_view(pre@) =~= comps_view(p@).take(pre@.len() as int));
    }
    true
}

/// Shrinks a concrete path: the first replacement whose directory prefixes
/// it becomes a leading token; otherwise the path stays literal.
pub fn shrink(path: &Vec<String>, reps: &Vec<Replacement>) -> (r: PortablePath)
    ensures
        r@ == spec_shrink(comps_view(path@), reps_view(reps@)),
{
    let ghost rv = reps_view(reps@);
    let ghost pv = comps_view(path@);
    let mut i: usize = 0;
    proof {
        assert(rv.skip(0) =~= rv);
    }
    while i < reps.len()
        invariant
            0 <= i <= reps@.len(),
            rv == reps_view(reps@),
            pv == comps_view(path@),
            spec_shrink(pv, rv) == spec_shrink(pv, rv.skip(i as int)),
            forall|j: int| 0 <= j < i ==> !dir_prefix((#[trigger] rv[j]).1, pv),
        decreases reps@.len() - i,
    {
        proof {
            assert(rv.skip(i as int)[0] == rv[i as int]);
            assert(rv.skip(i as int).drop_first() =~= rv.skip(i + 1));
        }
        if is_dir_prefix(&reps[i].dir, path) {
            let tok = reps[i].token;
            let dlen = reps[i].dir.len();
            let mut parts: Vec<PathPart> = Vec::new();
            parts.push(PathPart::Placeholder(tok));
            let mut k: usize = dlen;
            while k < path.len()
                invariant
                    dlen <= k <= path@.len(),
                    pv == comps_view(path@),
                    parts@.len() == 1 + k - dlen,
                    parts@[0] == PathPart::Placeholder(tok),
                    forall|j: int| 1 <= j < parts@.len() ==> #[trigger] parts@[j]@
                        == PartModel::Literal(pv[dlen + j - 1]),
                decreases path@.len() - k,
            {
                parts.push(PathPart::Literal(path[k].clone()));
                k += 1;
            }
            let r = PortablePath { parts };
            proof {
                let expected = seq![PartModel::Placeholder(tok)] + literal_parts(
                    pv.skip(dlen as int),
                );
                assert forall|j: int| 0 <= j < r@.len() implies r@[j] == expected[j] by {
                    if j >= 1 {
                        assert(literal_parts(pv.skip(dlen as int))[j - 1] == PartModel::Literal(
                            pv.skip(dlen as int)[j - 1],
                        ));
                        assert(pv.skip(dlen as int)[j - 1] == pv[dlen + j - 1]);
                    }
                }
                assert(r@ =~= expected);
            }
            return r;
        }
        i += 1;
    }
    proof {
        assert(rv.skip(rv.len() as int) =~= Seq::<(Token, Seq<Seq<char>>)>::empty());
    }
    let mut parts: Vec<PathPart> = Vec::new();
    let mut k: usize = 0;
    while k < path.len()
        invariant
            0 <= k <= path@.len(),
            pv == comps_view(path@),
            parts@.len() == k,
            forall|j: int| 0 <= j < k ==> #[trigger] parts@[j]@ == PartModel::Literal(pv[j]),
        decreases path@.len() - k,
    {
        parts.push(PathPart::Literal(path[k].clone()));
        k += 1;
    }
    let r = PortablePath { parts };
    proof {
        assert forall|j: int| 0 <= j < r@.len() implies r@[j] == literal_parts(pv)[j] by {
            assert(literal_parts(pv)[j] == PartModel::Literal(pv[j]));
        }
        assert(r@ =~= literal_parts(pv));
    }
    r
}

} // verus!
