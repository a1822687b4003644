//! Command-line arguments: flags and positional values.
//!
//! An argument starting with `--` is a flag; it takes the following
//! argument as its value unless that argument itself starts with `-`.
//! Everything else is positional.

use crate::paths::comps_view;
use vstd::prelude::*;

verus! {

/// One parsed flag: its name without the leading dashes, and its value.
pub struct Flag {
    pub name: String,
    pub value: Option<String>,
}

/// The mathematical model of a [`Flag`].
pub struct FlagModel {
    pub name: Seq<char>,
    pub value: Option<Seq<char>>,
}

impl View for Flag {
    type V = FlagModel;

    open spec fn view(&self) -> FlagModel {
        FlagModel {
            name: self.name@,
            value: match self.value {
                Some(v) => Some(v@),
                None => None,
            },
        }
    }
}

/// The models of a list of flags.
pub open spec fn flags_view(s: Seq<Flag>) -> Seq<FlagModel> {
    Seq::new(s.len(), |i: int| s[i]@)
}

/// The parsed command line.
pub struct Args {
    pub positional: Vec<String>,
    pub flags: Vec<Flag>,
}

/// An argument written as a flag: two leading dashes.
pub open spec fn is_flag_arg(a: Seq<char>) -> bool {
    a.len() >= 2 && a[0] == '-' && a[1] == '-'
}

/// A flag's name: the argument without its two leading dashes.
pub open spec fn flag_name_of(a: Seq<char>) -> Seq<char> {
    a.skip(2)
}

/// Whether the argument after a flag is taken as its value.
pub open spec fn takes_value(next: Seq<char>) -> bool {
    !(next.len() >= 1 && next[0] == '-')
}

/// What parsing a list of arguments yields: the positional values and the
/// flags, each in order.
pub open spec fn spec_parse(args: Seq<Seq<char>>) -> (Seq<Seq<char>>, Seq<FlagModel>)
    decreases args.len(),
{
    if args.len() == 0 {
        (Seq::<Seq<char>>::empty(), Seq::<FlagModel>::empty())
    } else if is_flag_arg(args[0]) {
        if args.len() >= 2 && takes_value(args[1]) {
            let rest = spec_parse(args.skip(2));
            (
                rest.0,
                seq![FlagModel { name: flag_name_of(args[0]), value: Some(args[1]) }] + rest.1,
            )
        } else {
            let rest = spec_parse(args.skip(1));
            (rest.0, seq![FlagModel { name: flag_name_of(args[0]), value: None }] + rest.1)
        }
    } else {
        let rest = spec_parse(args.skip(1));
        (seq![args[0]] + rest.0, rest.1)
    }
}

/// Index of the first flag with the given name, if any.
pub open spec fn spec_find_flag(flags: Seq<Flag>, name: Seq<char>) -> Option<int>
    decreases flags.len(),
{
    if flags.len() == 0 {
        None
    } else if flags[0].name@ == name {
        Some(0)
    } else {
        match spec_find_flag(flags.drop_first(), name) {
            Some(i) => Some(i + 1),
            None => None,
        }
    }
}

/// Index of the last flag with the given name, if any: with one name
/// given twice, the later value wins in [`Args::flags_map`].
pub open spec fn spec_last_flag(flags: Seq<Flag>, name: Seq<char>) -> Option<int>
    decreases flags.len(),
{
    if flags.len() == 0 {
        None
    } else if flags.last().name@ == name {
        Some(flags.len() - 1)
    } else {
        spec_last_flag(flags.drop_last(), name)
    }
}

pub proof fn lemma_last_flag(flags: Seq<Flag>, name: Seq<char>)
    ensures
        match spec_last_flag(flags, name) {
            Some(i) => 0 <= i < flags.len() && flags[i].name@ == name && forall|j: int|
                i < j < flags.len() ==> (#[trigger] flags[j]).name@ != name,
            None => forall|j: int| 0 <= j < flags.len() ==> (#[trigger] flags[j]).name@ != name,
        },
    decreases flags.len(),
{
    if flags.len() > 0 && flags.last().name@ != name {
        let d = flags.drop_last();
        lemma_last_flag(d, name);
        match spec_last_flag(d, name) {
            Some(i) => {
                assert(d[i] == flags[i]);
                assert forall|j: int| i < j < flags.len() implies (#[trigger] flags[j]).name@
                    != name by {
                    if j < flags.len() - 1 {
                        assert(d[j] == flags[j]);
                    }
                }
            },
            None => {
                assert forall|j: int| 0 <= j < flags.len() implies (#[trigger] flags[j]).name@
                    != name by {
                    if j < flags.len() - 1 {
                        assert(d[j] == flags[j]);
                    }
                }
            },
        }
    }
}

pub proof fn lemma_find_flag(flags: Seq<Flag>, name: Seq<char>)
    ensures
        match spec_find_flag(flags, name) {
            Some(i) => 0 <= i < flags.len() && flags[i].name@ == name && forall|j: int|
                0 <= j < i ==> (#[trigger] flags[j]).name@ != name,
            None => forall|j: int| 0 <= j < flags.len() ==> (#[trigger] flags[j]).name@ != name,
        },
    decreases flags.len(),
{
    if flags.len() > 0 && flags[0].name@ != name {
        let d = flags.drop_first();
        lemma_find_flag(d, name);
        match spec_find_flag(d, name) {
            Some(i) => {
                assert(d[i] == flags[i + 1]);
                assert forall|j: int| 0 <= j < i + 1 implies (#[trigger] flags[j]).name@
                    != name by {
                    if j > 0 {
                        assert(d[j - 1] == flags[j]);
                    }
                }
            },
            None => {
                assert forall|j: int| 0 <= j < flags.len() implies (#[trigger] flags[j]).name@
                    != name by {
                    if j > 0 {
                        assert(d[j - 1] == flags[j]);
                    }
                }
            },
        }
    }
}

impl Flag {
    /// A flag without a value.
    pub fn new(name: &str) -> (r: Self)
        ensures
            r@ == (FlagModel { name: name@, value: None }),
    {
        Flag { name: name.to_owned(), value: None }
    }

    /// A flag carrying a value.
    pub fn with_value(name: &str, value: &str) -> (r: Self)
        ensures
            r@ == (FlagModel { name: name@, value: Some(value@) }),
    {
        Flag { name: name.to_owned(), value: Some(value.to_owned()) }
    }
}

/// Whether an earlier flag shares the name of the flag at `i`.
fn name_seen_before(flags: &Vec<Flag>, i: usize) -> (r: bool)
    requires
        i < flags@.len(),
    ensures
        r == exists|j: int|
            0 <= j < i && (#[trigger] flags@[j]).name@ == flags@[i as int].name@,
{
    let ghost fv = flags@;
    let ghost nm = fv[i as int].name@;
    let mut j: usize = 0;
    while j < i
        invariant
            fv == flags@,
            nm == fv[i as int].name@,
            0 <= j <= i < fv.len(),
            forall|j2: int| 0 <= j2 < j ==> (#[trigger] fv[j2]).name@ != nm,
        decreases i - j,
    {
        if flags[j].name.eq(&flags[i].name) {
            proof {
                assert(fv[j as int].name@ == nm);
            }
            return true;
        }
        j += 1;
    }
    false
}

/// The index of the last flag sharing the name of the flag at `i`.
fn last_with_name(flags: &Vec<Flag>, i: usize) -> (r: usize)
    requires
        i < flags@.len(),
    ensures
        spec_last_flag(flags@, flags@[i as int].name@) == Some(r as int),
{
    let ghost fv = flags@;
    let ghost nm = fv[i as int].name@;
    proof {
        assert(flags.len() == fv.len());
    }
    let mut last: usize = i;
    let mut j: usize = i + 1;
    while j < flags.len()
        invariant
            fv == flags@,
            nm == fv[i as int].name@,
            i <= last < j <= fv.len(),
            fv[last as int].name@ == nm,
            forall|t: int| last < t < j ==> (#[trigger] fv[t]).name@ != nm,
        decreases fv.len() - j,
    {
        if flags[j].name.eq(&flags[i].name) {
            proof {
                assert(fv[j as int].name@ == nm);
            }
            last = j;
        }
        j += 1;
    }
    proof {
        lemma_last_flag(fv, nm);
        match spec_last_flag(fv, nm) {
            Some(s) => {
                assert(!(s > last) && !(s < last));
            },
            None => {
                assert(fv[last as int].name@ == nm);
            },
        }
    }
    last
}

fn is_flag_text(s: &String) -> (r: bool)
    ensures
        r == is_flag_arg(s@),
{
    let t = s.as_str();
    if t.unicode_len() < 2 {
        return false;
    }
    t.get_char(0) == '-' && t.get_char(1) == '-'
}

fn starts_dash(s: &String) -> (r: bool)
    ensures
        r == !takes_value(s@),
{
    let t = s.as_str();
    if t.unicode_len() == 0 {
        return false;
    }
    t.get_char(0) == '-'
}

impl Args {
    /// Parses a command line into positional values and flags.
    pub fn parse(args: &[String]) -> (r: Self)
        ensures
            comps_view(r.positional@) == spec_parse(comps_view(args@)).0,
            flags_view(r.flags@) == spec_parse(comps_view(args@)).1,
    {
        let ghost av = comps_view(args@);
        let mut positional: Vec<String> = Vec::new();
        let mut flags: Vec<Flag> = Vec::new();
        let mut i: usize = 0;
        proof {
            assert(av.skip(0) =~= av);
            assert(comps_view(positional@) =~= Seq::<Seq<char>>::empty());
            assert(flags_view(flags@) =~= Seq::<FlagModel>::empty());
            assert(Seq::<Seq<char>>::empty() + spec_parse(av).0 =~= spec_parse(av).0);
            assert(Seq::<FlagModel>::empty() + spec_parse(av).1 =~= spec_parse(av).1);
        }
        while i < args.len()
            invariant
                av == comps_view(args@),
                0 <= i <= av.len(),
                spec_parse(av).0 == comps_view(positional@) + spec_parse(av.skip(i as int)).0,
                spec_parse(av).1 == flags_view(flags@) + spec_parse(av.skip(i as int)).1,
            decreases av.len() - i,
        {
            let ghost tail = av.skip(i as int);
            proof {
                assert(tail[0] == av[i as int]);
            }
            let arg = &args[i];
            if is_flag_text(arg) {
                let t = arg.as_str();
                let n = t.unicode_len();
                let name = t.substring_char(2, n).to_owned();
                proof {
                    assert(name@ == flag_name_of(av[i as int]));
                }
                let has_value = i + 1 < args.len() && !starts_dash(&args[i + 1]);
                let ghost f0 = flags_view(flags@);
                if has_value {
                    proof {
                        assert(tail.len() >= 2 && tail[1] == av[i + 1]);
                        assert(tail.skip(2) =~= av.skip(i + 2));
                    }
                    let value = args[i + 1].clone();
                    flags.push(Flag { name, value: Some(value) });
                    proof {
                        let fm = FlagModel {
                            name: flag_name_of(av[i as int]),
                            value: Some(av[i + 1]),
                        };
                        assert(flags_view(flags@) =~= f0.push(fm));
                        assert(f0.push(fm) =~= f0 + seq![fm]);
                        assert(spec_parse(tail).0 == spec_parse(av.skip(i + 2)).0);
                        assert(spec_parse(tail).1 == seq![fm] + spec_parse(av.skip(i + 2)).1);
                        assert(f0 + (seq![fm] + spec_parse(av.skip(i + 2)).1) =~= (f0 + seq![fm])
                            + spec_parse(av.skip(i + 2)).1);
                    }
                    i += 2;
                } else {
                    proof {
                        assert(tail.skip(1) =~= av.skip(i + 1));
                        if tail.len() >= 2 {
                            assert(tail[1] == av[i + 1]);
                        }
                    }
                    flags.push(Flag { name, value: None });
                    proof {
                        let fm = FlagModel { name: flag_name_of(av[i as int]), value: None };
                        assert(flags_view(flags@) =~= f0.push(fm));
                        assert(f0.push(fm) =~= f0 + seq![fm]);
                        assert(spec_parse(tail).0 == spec_parse(av.skip(i + 1)).0);
                        assert(spec_parse(tail).1 == seq![fm] + spec_parse(av.skip(i + 1)).1);
                        assert(f0 + (seq![fm] + spec_parse(av.skip(i + 1)).1) =~= (f0 + seq![fm])
                            + spec_parse(av.skip(i + 1)).1);
                    }
                    i += 1;
                }
            } else {
                let ghost p0 = comps_view(positional@);
                proof {
                    assert(tail.skip(1) =~= av.skip(i + 1));
                }
                positional.push(arg.clone());
                proof {
                    assert(comps_view(positional@) =~= p0.push(av[i as int]));
                    assert(p0.push(av[i as int]) =~= p0 + seq![av[i as int]]);
                    assert(spec_parse(tail).0 == seq![av[i as int]] + spec_parse(av.skip(i + 1)).0);
                    assert(spec_parse(tail).1 == spec_parse(av.skip(i + 1)).1);
                    assert(p0 + (seq![av[i as int]] + spec_parse(av.skip(i + 1)).0) =~= (p0
                        + seq![av[i as int]]) + spec_parse(av.skip(i + 1)).0);
                }
                i += 1;
            }
        }
        proof {
            assert(av.skip(av.len() as int) =~= Seq::<Seq<char>>::empty());
            assert(comps_view(positional@) + Seq::<Seq<char>>::empty() =~= comps_view(
                positional@,
            ));
            assert(flags_view(flags@) + Seq::<FlagModel>::empty() =~= flags_view(flags@));
        }
        Args { positional, flags }
    }

    /// Whether a flag with this name was given.
    pub fn has_flag(&self, name: &str) -> (r: bool)
        ensures
            r == (spec_find_flag(self.flags@, name@) is Some),
    {
        let owned = name.to_owned();
        let mut i: usize = 0;
        proof {
            lemma_find_flag(self.flags@, name@);
        }
        while i < self.flags.len()
            invariant
                0 <= i <= self.flags@.len(),
                forall|j: int| 0 <= j < i ==> (#[trigger] self.flags@[j]).name@ != name@,
                owned@ == name@,
            decreases self.flags@.len() - i,
        {
            if self.flags[i].name.eq(&owned) {
                proof {
                    lemma_find_flag(self.flags@, name@);
                }
                return true;
            }
            i += 1;
        }
        proof {
            lemma_find_flag(self.flags@, name@);
        }
        false
    }

    /// The first flag with this name.
    pub fn get_flag(&self, name: &str) -> (r: Option<&Flag>)
        ensures
            match r {
                Some(f) => spec_find_flag(self.flags@, name@) matches Some(j) && *f
                    == self.flags@[j],
                None => spec_find_flag(self.flags@, name@) is None,
            },
    {
        let owned = name.to_owned();
        let mut i: usize = 0;
        while i < self.flags.len()
            invariant
                0 <= i <= self.flags@.len(),
                forall|j: int| 0 <= j < i ==> (#[trigger] self.flags@[j]).name@ != name@,
                owned@ == name@,
            decreases self.flags@.len() - i,
        {
            if self.flags[i].name.eq(&owned) {
                proof {
                    lemma_find_flag(self.flags@, name@);
                    match spec_find_flag(self.flags@, name@) {
                        Some(k) => {
                            assert(!(k < i) && !(k > i));
                        },
                        None => {
                            assert(self.flags@[i as int].name@ == name@);
                        },
                    }
                }
                return Some(&self.flags[i]);
            }
            i += 1;
        }
        proof {
            lemma_find_flag(self.flags@, name@);
        }
        None
    }

    /// The value of the first flag with this name, if it carries one.
    pub fn get_flag_value(&self, name: &str) -> (r: Option<&String>)
        ensures
            match spec_find_flag(self.flags@, name@) {
                Some(j) => match r {
                    Some(v) => self.flags@[j].value == Some(*v),
                    None => self.flags@[j].value is None,
                },
                None => r is None,
            },
    {
        match self.get_flag(name) {
            Some(f) => f.value.as_ref(),
            None => None,
        }
    }

    /// The flags as a mapping: one pair per distinct name, carrying the
    /// value of the last flag given under that name.
    #[verifier::rlimit(50)]
    pub fn flags_map(&self) -> (r: Vec<(String, Option<String>)>)
        ensures
            forall|a: int, b: int|
                0 <= a < b < r@.len() ==> (#[trigger] r@[a]).0@ != (#[trigger] r@[b]).0@,
            forall|k: int|
                0 <= k < r@.len() ==> (spec_last_flag(self.flags@, (#[trigger] r@[k]).0@)
                    matches Some(j) && r@[k].1 == self.flags@[j].value),
            forall|i: int|
                0 <= i < self.flags@.len() ==> exists|k: int|
                    0 <= k < r@.len() && (#[trigger] r@[k]).0@ == (#[trigger] self.flags@[i]).name@,
    {
        let ghost fv = self.flags@;
        let mut r: Vec<(String, Option<String>)> = Vec::new();
        let mut i: usize = 0;
        while i < self.flags.len()
            invariant
                fv == self.flags@,
                0 <= i <= fv.len(),
                forall|a: int, b: int|
                    0 <= a < b < r@.len() ==> (#[trigger] r@[a]).0@ != (#[trigger] r@[b]).0@,
                forall|k: int|
                    0 <= k < r@.len() ==> (spec_last_flag(fv, (#[trigger] r@[k]).0@)
                        matches Some(j) && r@[k].1 == fv[j].value),
                forall|i2: int|
                    0 <= i2 < i ==> exists|k: int|
                        0 <= k < r@.len() && (#[trigger] r@[k]).0@ == (#[trigger] fv[i2]).name@,
                forall|k: int|
                    0 <= k < r@.len() ==> exists|i2: int|
                        0 <= i2 < i && (#[trigger] fv[i2]).name@ == (#[trigger] r@[k]).0@,
            decreases fv.len() - i,
        {
            let ghost nm = fv[i as int].name@;
            if !name_seen_before(&self.flags, i) {
                let last = last_with_name(&self.flags, i);
                proof {
                    lemma_last_flag(fv, nm);
                }
                let value = match &self.flags[last].value {
                    Some(v) => Some(v.clone()),
                    None => None,
                };
                let ghost r0 = r@;
                r.push((self.flags[i].name.clone(), value));
                proof {
                    let n = r@.len() - 1;
                    assert(r@[n].0@ == nm);
                    assert(r@[n].1 == fv[last as int].value);
                    assert(spec_last_flag(fv, r@[n].0@) == Some(last as int));
                    assert forall|a: int, b: int| 0 <= a < b < r@.len() implies (#[trigger] r@[a]).0@
                        != (#[trigger] r@[b]).0@ by {
                        if b == n {
                            let i2 = choose|i2: int|
                                0 <= i2 < i && (#[trigger] fv[i2]).name@ == r0[a].0@;
                            assert(r@[a] == r0[a]);
                            assert(fv[i2].name@ != nm);
                        } else {
                            assert(r@[a] == r0[a] && r@[b] == r0[b]);
                        }
                    }
                    assert forall|k: int| 0 <= k < r@.len() implies (spec_last_flag(
                        fv,
                        (#[trigger] r@[k]).0@,
                    ) matches Some(j) && r@[k].1 == fv[j].value) by {
                        if k < n {
                            assert(r@[k] == r0[k]);
                        }
                    }
                    assert forall|i2: int| 0 <= i2 < i + 1 implies exists|k: int|
                        0 <= k < r@.len() && (#[trigger] r@[k]).0@
                            == (#[trigger] fv[i2]).name@ by {
                        if i2 < i {
                            let k = choose|k: int|
                                0 <= k < r0.len() && (#[trigger] r0[k]).0@ == fv[i2].name@;
                            assert(r@[k] == r0[k]);
                            assert(r@[k].0@ == fv[i2].name@);
                        } else {
                            assert(r@[n].0@ == fv[i2].name@);
                        }
                    }
                    assert forall|k: int| 0 <= k < r@.len() implies exists|i2: int|
                        0 <= i2 < i + 1 && (#[trigger] fv[i2]).name@
                            == (#[trigger] r@[k]).0@ by {
                        if k < n {
                            assert(r@[k] == r0[k]);
                            let i2 = choose|i2: int|
                                0 <= i2 < i && (#[trigger] fv[i2]).name@ == r0[k].0@;
                            assert(fv[i2].name@ == r@[k].0@);
                        } else {
                            assert(fv[i as int].name@ == r@[k].0@);
                        }
                    }
                }
            } else {
                proof {
                    let j = choose|j: int| 0 <= j < i && (#[trigger] fv[j]).name@ == nm;
                    let k = choose|k: int|
                        0 <= k < r@.len() && (#[trigger] r@[k]).0@ == fv[j].name@;
                    assert(r@[k].0@ == nm);
                }
            }
            i += 1;
        }
        r
    }
}

/// One executable command of the tool; the implementations drive
/// filesystem and network work, so they live with the application around
/// this library.
pub trait Command {
    fn run(args: Args, config: &crate::config::Config);
}

/// Backs up the installed applications' save files.
pub struct Backup;

/// Restores archived save files to their live locations.
pub struct Restore;

/// Checks whether a newer release of the tool exists.
pub struct Update;

/// Refreshes the cached copies of user-supplied rule catalogs.
pub struct UpdateCustom;

/// Refreshes the cached copy of the bundled rule catalog.
pub struct UpdateGameDb;

} // verus!
