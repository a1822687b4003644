//! Discovery: from portable rules to the files worth backing up.
//!
//! Each rule path is expanded to a concrete glob pattern; a rule the
//! context cannot resolve is skipped while its siblings are still tried.
//! The filesystem walk itself is the surrounding application's work; its
//! findings come back here, where directories and known noise files are
//! rejected and duplicates are dropped.

use crate::context::{spec_replacements, replacements, ResolutionContext};
use crate::paths::{comps_view, spec_join};
use crate::resolver::{expand, spec_expand};
use crate::template::{parse_portable, spec_parse_portable};
use crate::paths::join_path;
use vstd::prelude::*;

verus! {

/// The concrete glob pattern one rule denotes under a context, if the
/// context resolves it.
pub open spec fn pattern_of(rule: Seq<char>, ctx: ResolutionContext) -> Option<Seq<char>> {
    match spec_expand(spec_parse_portable(rule), spec_replacements(ctx)) {
        Some(p) => Some(spec_join(p)),
        None => None,
    }
}

/// The patterns of the resolvable rules, in order.
pub open spec fn spec_patterns(rules: Seq<Seq<char>>, ctx: ResolutionContext) -> Seq<Seq<char>>
    decreases rules.len(),
{
    if rules.len() == 0 {
        Seq::empty()
    } else {
        (match pattern_of(rules[0], ctx) {
            Some(p) => seq![p],
            None => Seq::<Seq<char>>::empty(),
        }) + spec_patterns(rules.drop_first(), ctx)
    }
}

/// The unresolvable rules, in order, as written.
pub open spec fn spec_skipped(rules: Seq<Seq<char>>, ctx: ResolutionContext) -> Seq<Seq<char>>
    decreases rules.len(),
{
    if rules.len() == 0 {
        Seq::empty()
    } else {
        (match pattern_of(rules[0], ctx) {
            Some(_) => Seq::<Seq<char>>::empty(),
            None => seq![rules[0]],
        }) + spec_skipped(rules.drop_first(), ctx)
    }
}

proof fn lemma_patterns_push(rules: Seq<Seq<char>>, rule: Seq<char>, ctx: ResolutionContext)
    ensures
        spec_patterns(rules.push(rule), ctx) == spec_patterns(rules, ctx) + (match pattern_of(
            rule,
            ctx,
        ) {
            Some(p) => seq![p],
            None => Seq::<Seq<char>>::empty(),
        }),
        spec_skipped(rules.push(rule), ctx) == spec_skipped(rules, ctx) + (match pattern_of(
            rule,
            ctx,
        ) {
            Some(_) => Seq::<Seq<char>>::empty(),
            None => seq![rule],
        }),
    decreases rules.len(),
{
    let ptail = match pattern_of(rule, ctx) {
        Some(p) => seq![p],
        None => Seq::<Seq<char>>::empty(),
    };
    let stail = match pattern_of(rule, ctx) {
        Some(_) => Seq::<Seq<char>>::empty(),
        None => seq![rule],
    };
    if rules.len() == 0 {
        assert(rules.push(rule).drop_first() =~= Seq::<Seq<char>>::empty());
        assert(rules.push(rule)[0] == rule);
        assert(spec_patterns(rules.push(rule).drop_first(), ctx) == Seq::<Seq<char>>::empty());
        assert(spec_skipped(rules.push(rule).drop_first(), ctx) == Seq::<Seq<char>>::empty());
        assert(spec_patterns(rules.push(rule), ctx) =~= ptail);
        assert(spec_patterns(rules, ctx) + ptail =~= ptail);
        assert(spec_skipped(rules.push(rule), ctx) =~= stail);
        assert(spec_skipped(rules, ctx) + stail =~= stail);
    } else {
        lemma_patterns_push(rules.drop_first(), rule, ctx);
        assert(rules.push(rule).drop_first() =~= rules.drop_first().push(rule));
        assert(rules.push(rule)[0] == rules[0]);
        let phead = match pattern_of(rules[0], ctx) {
            Some(p) => seq![p],
            None => Seq::<Seq<char>>::empty(),
        };
        let shead = match pattern_of(rules[0], ctx) {
            Some(_) => Seq::<Seq<char>>::empty(),
            None => seq![rules[0]],
        };
        assert(spec_patterns(rules.push(rule), ctx) == phead + (spec_patterns(
            rules.drop_first(),
            ctx,
        ) + ptail));
        assert(phead + (spec_patterns(rules.drop_first(), ctx) + ptail) =~= (phead + spec_patterns(
            rules.drop_first(),
            ctx,
        )) + ptail);
        assert(spec_skipped(rules.push(rule), ctx) == shead + (spec_skipped(
            rules.drop_first(),
            ctx,
        ) + stail));
        assert(shead + (spec_skipped(rules.drop_first(), ctx) + stail) =~= (shead + spec_skipped(
            rules.drop_first(),
            ctx,
        )) + stail);
    }
}

/// Expands every rule to a concrete glob pattern.  Returns the patterns
/// of the resolvable rules and, separately, the rules that were skipped
/// because the context cannot resolve them.
pub fn discovery_patterns(rules: &Vec<String>, ctx: &ResolutionContext) -> (r: (Vec<String>, Vec<
    String,
>))
    ensures
        comps_view(r.0@) == spec_patterns(comps_view(rules@), *ctx),
        comps_view(r.1@) == spec_skipped(comps_view(rules@), *ctx),
{
    let reps = replacements(ctx);
    let ghost rv = comps_view(rules@);
    let mut pats: Vec<String> = Vec::new();
    let mut skipped: Vec<String> = Vec::new();
    let mut i: usize = 0;
    proof {
        assert(rv.take(0) =~= Seq::<Seq<char>>::empty());
        assert(comps_view(pats@) =~= Seq::<Seq<char>>::empty());
        assert(comps_view(skipped@) =~= Seq::<Seq<char>>::empty());
    }
    while i < rules.len()
        invariant
            rv == comps_view(rules@),
            crate::resolver::reps_view(reps@) == spec_replacements(*ctx),
            0 <= i <= rv.len(),
            comps_view(pats@) == spec_patterns(rv.take(i as int), *ctx),
            comps_view(skipped@) == spec_skipped(rv.take(i as int), *ctx),
        decreases rv.len() - i,
    {
        let rule = &rules[i];
        let portable = parse_portable(rule.as_str());
        let ghost pats0 = comps_view(pats@);
        let ghost skipped0 = comps_view(skipped@);
        match expand(&portable, &reps) {
            Ok(target) => {
                let pattern = join_path(&target);
                let ghost pv = pattern@;
                pats.push(pattern);
                proof {
                    assert(pattern_of(rv[i as int], *ctx) == Some(pv));
                    assert(comps_view(pats@) =~= pats0.push(pv));
                    assert(pats0.push(pv) =~= pats0 + seq![pv]);
                }
            },
            Err(_) => {
                let copy = rule.clone();
                let ghost cv = copy@;
                skipped.push(copy);
                proof {
                    assert(pattern_of(rv[i as int], *ctx) is None);
                    assert(comps_view(skipped@) =~= skipped0.push(cv));
                    assert(skipped0.push(cv) =~= skipped0 + seq![cv]);
                    assert(cv == rv[i as int]);
                }
            },
        }
        proof {
            lemma_patterns_push(rv.take(i as int), rv[i as int], *ctx);
            assert(rv.take(i as int).push(rv[i as int]) =~= rv.take(i + 1));
        }
        i += 1;
    }
    proof {
        assert(rv.take(rv.len() as int) =~= rv);
    }
    (pats, skipped)
}

/// One filesystem match the application's glob walk found.
pub struct FoundFile {
    /// The matched path's components.
    pub path: Vec<String>,
    /// Modification time in nanoseconds since the epoch.
    pub modified: u64,
    /// Whether the match is a directory.
    pub is_dir: bool,
}

/// The marker files the platform's auto-cloud feature leaves beside save
/// files; never worth backing up.
pub open spec fn noise_file() -> Seq<char> {
    "steam_autocloud.vdf"@
}

/// A match worth keeping: a file, not a directory, and not a noise file.
pub open spec fn keepable(f: FoundFile) -> bool {
    &&& !f.is_dir
    &&& (f.path@.len() > 0 ==> comps_view(f.path@).last() != noise_file())
}

/// Two matches naming the same path.
pub open spec fn same_path(a: FoundFile, b: FoundFile) -> bool {
    comps_view(a.path@) == comps_view(b.path@)
}

/// The first keepable match with its path: what discovery yields.
pub open spec fn is_first_keepable(found: Seq<FoundFile>, i: int) -> bool {
    &&& keepable(found[i])
    &&& forall|j: int| 0 <= j < i ==> !(keepable(#[trigger] found[j]) && same_path(found[j], found[i]))
}

fn is_keepable(f: &FoundFile) -> (r: bool)
    ensures
        r == keepable(*f),
{
    if f.is_dir {
        return false;
    }
    if f.path.len() == 0 {
        return true;
    }
    let noise = String::from_str("steam_autocloud.vdf");
    let last = &f.path[f.path.len() - 1];
    let hit = last.eq(&noise);
    proof {
        assert(comps_view(f.path@).last() == f.path@[f.path@.len() - 1]@);
    }
    !hit
}

fn paths_equal(a: &Vec<String>, b: &Vec<String>) -> (r: bool)
    ensures
        r == (comps_view(a@) == comps_view(b@)),
{
    if a.len() != b.len() {
        proof {
            assert(comps_view(a@).len() != comps_view(b@).len());
        }
        return false;
    }
    let mut i: usize = 0;
    while i < a.len()
        invariant
            a@.len() == b@.len(),
            0 <= i <= a@.len(),
            forall|j: int| 0 <= j < i ==> comps_view(a@)[j] == comps_view(b@)[j],
        decreases a@.len() - i,
    {
        if !a[i].eq(&b[i]) {
            proof {
                assert(comps_view(a@)[i as int] != comps_view(b@)[i as int]);
            }
            return false;
        }
        i += 1;
    }
    proof {
        assert(comps_view(a@) =~= comps_view(b@));
    }
    true
}

/// Picks, in order, the indices of the matches discovery yields: files
/// only, noise files dropped, one index per distinct path.
pub fn filter_candidates(found: &Vec<FoundFile>) -> (r: Vec<usize>)
    ensures
        forall|a: int, b: int| 0 <= a < b < r@.len() ==> r@[a] < r@[b],
        forall|k: int| 0 <= k < r@.len() ==> (#[trigger] r@[k]) < found@.len(),
        forall|i: int|
            0 <= i < found@.len() ==> ((exists|k: int|
                0 <= k < r@.len() && (#[trigger] r@[k]) as int == i) <==> is_first_keepable(
                found@,
                i,
            )),
{
    let mut r: Vec<usize> = Vec::new();
    let mut i: usize = 0;
    while i < found.len()
        invariant
            0 <= i <= found@.len(),
            forall|a: int, b: int| 0 <= a < b < r@.len() ==> r@[a] < r@[b],
            forall|k: int| 0 <= k < r@.len() ==> (#[trigger] r@[k]) < i,
            forall|i2: int|
                0 <= i2 < i ==> ((exists|k: int|
                    0 <= k < r@.len() && (#[trigger] r@[k]) as int == i2) <==> is_first_keepable(
                    found@,
                    i2,
                )),
        decreases found@.len() - i,
    {
        let ghost r0 = r@;
        if is_keepable(&found[i]) {
            let mut dup = false;
            let mut j: usize = 0;
            while j < i
                invariant
                    0 <= j <= i < found@.len(),
                    dup == exists|j2: int|
                        0 <= j2 < j && keepable(#[trigger] found@[j2]) && same_path(
                            found@[j2],
                            found@[i as int],
                        ),
                decreases i - j,
            {
                if is_keepable(&found[j]) && paths_equal(&found[j].path, &found[i].path) {
                    dup = true;
                    proof {
                        assert(keepable(found@[j as int]) && same_path(
                            found@[j as int],
                            found@[i as int],
                        ));
                    }
                }
                j += 1;
            }
            if !dup {
                r.push(i);
                proof {
                    assert(r@[r@.len() - 1] as int == i as int);
                    assert(is_first_keepable(found@, i as int));
                    assert forall|i2: int| 0 <= i2 < i + 1 implies ((exists|k: int|
                        0 <= k < r@.len() && (#[trigger] r@[k]) as int == i2) <==> is_first_keepable(
                        found@,
                        i2,
                    )) by {
                        if i2 < i {
                            if exists|k: int| 0 <= k < r0.len() && (#[trigger] r0[k]) as int == i2 {
                                let k = choose|k: int|
                                    0 <= k < r0.len() && (#[trigger] r0[k]) as int == i2;
                                assert(r@[k] as int == i2);
                            }
                            if exists|k: int| 0 <= k < r@.len() && (#[trigger] r@[k]) as int == i2 {
                                let k = choose|k: int|
                                    0 <= k < r@.len() && (#[trigger] r@[k]) as int == i2;
                                assert(k < r0.len());
                                assert(r0[k] as int == i2);
                            }
                        } else {
                            assert(r@[r@.len() - 1] as int == i2);
                        }
                    }
                }
            } else {
                proof {
                    assert(!is_first_keepable(found@, i as int));
                    assert forall|i2: int| 0 <= i2 < i + 1 implies ((exists|k: int|
                        0 <= k < r@.len() && (#[trigger] r@[k]) as int == i2) <==> is_first_keepable(
                        found@,
                        i2,
                    )) by {}
                }
            }
        } else {
            proof {
                assert(!is_first_keepable(found@, i as int));
                assert forall|i2: int| 0 <= i2 < i + 1 implies ((exists|k: int|
                    0 <= k < r@.len() && (#[trigger] r@[k]) as int == i2) <==> is_first_keepable(
                    found@,
                    i2,
                )) by {}
            }
        }
        i += 1;
    }
    r
}

} // verus!
