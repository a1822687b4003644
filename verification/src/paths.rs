//! Concrete paths as sequences of components.
//!
//! A concrete path is modelled as the list of its `/`-separated components:
//! `"/home/u/Documents"` is `["", "home", "u", "Documents"]`.  Splitting and
//! joining are exact inverses on component lists that contain no `/`.

use vstd::prelude::*;

verus! {

/// The view of a component list: each component as a sequence of characters.
pub open spec fn comps_view(v: Seq<String>) -> Seq<Seq<char>> {
    Seq::new(v.len(), |i: int| v[i]@)
}

/// A component holds no separator character.
pub open spec fn no_slash(s: Seq<char>) -> bool {
    forall|i: int| 0 <= i < s.len() ==> s[i] != '/'
}

/// A well-formed component list: at least one component, none containing `/`.
pub open spec fn wf_components(p: Seq<Seq<char>>) -> bool {
    &&& p.len() >= 1
    &&& forall|i: int| 0 <= i < p.len() ==> no_slash(#[trigger] p[i])
}

/// The characters of a path, components interleaved with `/`.
pub open spec fn spec_join(parts: Seq<Seq<char>>) -> Seq<char>
    decreases parts.len(),
{
    if parts.len() == 0 {
        Seq::empty()
    } else if parts.len() == 1 {
        parts[0]
    } else {
        parts[0] + seq!['/'] + spec_join(parts.drop_first())
    }
}

/// Index of the first `/` in `s`, or `s.len()` if there is none.
pub open spec fn first_slash(s: Seq<char>) -> int
    decreases s.len(),
{
    if s.len() == 0 {
        0
    } else if s[0] == '/' {
        0
    } else {
        1 + first_slash(s.drop_first())
    }
}

/// The component list of a path's characters.
pub open spec fn spec_split(s: Seq<char>) -> Seq<Seq<char>>
    decreases s.len(),
{
    let i = first_slash(s);
    if 0 <= i && i < s.len() {
        seq![s.take(i)] + spec_split(s.skip(i + 1))
    } else {
        seq![s]
    }
}

pub proof fn lemma_first_slash(s: Seq<char>)
    ensures
        0 <= first_slash(s) <= s.len(),
        first_slash(s) < s.len() ==> s[first_slash(s)] == '/',
        forall|i: int| 0 <= i < first_slash(s) ==> s[i] != '/',
    decreases s.len(),
{
    if s.len() == 0 {
    } else if s[0] == '/' {
    } else {
        lemma_first_slash(s.drop_first());
        assert forall|i: int| 0 <= i < first_slash(s) implies s[i] != '/' by {
            if i > 0 {
                assert(s.drop_first()[i - 1] == s[i]);
            }
        }
    }
}

pub proof fn lemma_join_push(p: Seq<Seq<char>>, x: Seq<char>)
    ensures
        spec_join(p.push(x)) == if p.len() == 0 {
            x
        } else {
            spec_join(p) + seq!['/'] + x
        },
    decreases p.len(),
{
    if p.len() == 0 {
        assert(p.push(x) =~= seq![x]);
        assert(spec_join(seq![x]) == x);
    } else if p.len() == 1 {
        assert(p.push(x).drop_first() =~= seq![x]);
        assert(spec_join(seq![x]) == x);
        assert(p.push(x)[0] == p[0]);
        assert(spec_join(p) == p[0]);
        assert(spec_join(p.push(x)) == p[0] + seq!['/'] + x);
    } else {
        lemma_join_push(p.drop_first(), x);
        assert(p.push(x).drop_first() =~= p.drop_first().push(x));
    }
}

/// Splitting is well formed and joining undoes it.
pub proof fn lemma_split_wf(s: Seq<char>)
    ensures
        wf_components(spec_split(s)),
        spec_join(spec_split(s)) == s,
    decreases s.len(),
{
    lemma_first_slash(s);
    let i = first_slash(s);
    if i == s.len() {
        assert(spec_join(seq![s]) == s);
    } else {
        lemma_split_wf(s.skip(i + 1));
        let rest = spec_split(s.skip(i + 1));
        let whole = seq![s.take(i)] + rest;
        assert(whole.drop_first() =~= rest);
        assert(no_slash(s.take(i)));
        assert(spec_join(whole) == s.take(i) + seq!['/'] + spec_join(rest));
        assert(s.take(i) + seq!['/'] + s.skip(i + 1) =~= s);
    }
}

/// Splits a path on `/`, keeping empty components.
pub fn split_path(s: &str) -> (r: Vec<String>)
    ensures
        comps_view(r@) == spec_split(s@),
        wf_components(comps_view(r@)),
{
    proof {
        lemma_split_wf(s@);
    }
    let n = s.unicode_len();
    let mut r: Vec<String> = Vec::new();
    let mut start: usize = 0;
    let mut i: usize = 0;
    proof {
        assert(comps_view(r@) =~= Seq::<Seq<char>>::empty());
        assert(s@.skip(0) =~= s@);
        assert(comps_view(r@) + spec_split(s@) =~= spec_split(s@));
    }
    while i < n
        invariant
            n == s@.len(),
            start <= i <= n,
            forall|j: int| start <= j < i ==> s@[j] != '/',
            spec_split(s@) =~= comps_view(r@) + spec_split(s@.skip(start as int)),
        decreases n - i,
    {
        let c = s.get_char(i);
        if c == '/' {
            let comp = s.substring_char(start, i).to_owned();
            proof {
                let tail = s@.skip(start as int);
                lemma_first_slash(tail);
                assert(forall|j: int| 0 <= j < i - start ==> tail[j] != '/');
                assert(tail[i - start] == '/');
                assert(first_slash(tail) == i - start);
                assert(tail.take(i - start) =~= s@.subrange(start as int, i as int));
                assert(tail.skip(i - start + 1) =~= s@.skip(i + 1));
                assert(spec_split(tail) == seq![s@.subrange(start as int, i as int)]
                    + spec_split(s@.skip(i + 1)));
                assert(comps_view(r@.push(comp)) =~= comps_view(r@).push(comp@));
            }
            r.push(comp);
            start = i + 1;
        }
        i += 1;
    }
    let comp = s.substring_char(start, n).to_owned();
    proof {
        let tail = s@.skip(start as int);
        lemma_first_slash(tail);
        assert(forall|j: int| 0 <= j < tail.len() ==> tail[j] != '/');
        assert(first_slash(tail) == tail.len());
        assert(spec_split(tail) == seq![tail]);
        assert(tail =~= s@.subrange(start as int, n as int));
        assert(comps_view(r@.push(comp)) =~= comps_view(r@).push(comp@));
        assert(comps_view(r@) + seq![comp@] =~= comps_view(r@).push(comp@));
    }
    r.push(comp);
    r
}

/// Joins components with `/`, the inverse of [`split_path`].
pub fn join_path(v: &Vec<String>) -> (r: String)
    ensures
        r@ == spec_join(comps_view(v@)),
{
    if v.len() == 0 {
        proof {
            assert(comps_view(v@) =~= Seq::<Seq<char>>::empty());
        }
        return String::new();
    }
    let mut r = v[0].clone();
    let mut i: usize = 1;
    while i < v.len()
        invariant
            1 <= i <= v@.len(),
            r@ == spec_join(comps_view(v@).take(i as int)),
        decreases v@.len() - i,
    {
        r.append("/");
        r.append(v[i].as_str());
        proof {
            reveal_strlit("/");
            assert("/"@ =~= seq!['/']);
            let p = comps_view(v@);
            lemma_join_push(p.take(i as int), p[i as int]);
            assert(p.take(i as int).push(p[i as int]) =~= p.take(i + 1));
        }
        i += 1;
    }
    proof {
        assert(comps_view(v@).take(v@.len() as int) =~= comps_view(v@));
    }
    r
}

} // verus!
