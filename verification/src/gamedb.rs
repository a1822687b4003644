//! The rule catalog's per-application records.
//!
//! The catalog maps an application name to the portable glob rules that
//! describe where its save files may live, partitioned by target
//! operating-system family.  Reading the catalog's files is the
//! surrounding application's work; the engines consume these records.

use crate::paths::comps_view;
use crate::resolver::OsFamily;
use vstd::prelude::*;

verus! {

/// One application's entry in the rule catalog.
pub struct GameDbEntry {
    pub files: GameFiles,
}

/// Portable glob rules for an application's save files, per target family.
/// The Windows rules apply everywhere: on the other families they resolve
/// through a compatibility prefix.
pub struct GameFiles {
    pub windows: Option<Vec<String>>,
    pub linux: Option<Vec<String>>,
    pub mac: Option<Vec<String>>,
}

/// The rules an optional list contributes.
pub open spec fn opt_rules(o: Option<Vec<String>>) -> Seq<Seq<char>> {
    match o {
        Some(v) => comps_view(v@),
        None => Seq::empty(),
    }
}

/// The rules applicable on one family: the Windows rules always, plus the
/// family's own.
pub open spec fn spec_rules_for_os(f: GameFiles, os: OsFamily) -> Seq<Seq<char>> {
    opt_rules(f.windows) + match os {
        OsFamily::Linux => opt_rules(f.linux),
        OsFamily::Mac => opt_rules(f.mac),
        OsFamily::Windows => Seq::<Seq<char>>::empty(),
    }
}

fn append_rules(dst: &mut Vec<String>, src: &Option<Vec<String>>)
    ensures
        comps_view(final(dst)@) == comps_view(old(dst)@) + opt_rules(*src),
{
    let ghost before = comps_view(dst@);
    match src {
        Some(v) => {
            let mut i: usize = 0;
            while i < v.len()
                invariant
                    0 <= i <= v@.len(),
                    comps_view(dst@) =~= before + comps_view(v@).take(i as int),
                decreases v@.len() - i,
            {
                let c = v[i].clone();
                let ghost cv = c@;
                let ghost acc0 = comps_view(dst@);
                dst.push(c);
                proof {
                    assert(cv == v@[i as int]@);
                    assert(comps_view(dst@) =~= acc0.push(cv));
                    assert(comps_view(v@).take(i + 1) =~= comps_view(v@).take(i as int).push(
                        v@[i as int]@,
                    ));
                }
                i += 1;
            }
            proof {
                assert(comps_view(v@).take(v@.len() as int) =~= comps_view(v@));
            }
        },
        None => {
            proof {
                assert(before + Seq::<Seq<char>>::empty() =~= before);
            }
        },
    }
}

/// The rules to try for one application on the given family.
pub fn rules_for_os(f: &GameFiles, os: OsFamily) -> (r: Vec<String>)
    ensures
        comps_view(r@) == spec_rules_for_os(*f, os),
{
    let mut r: Vec<String> = Vec::new();
    proof {
        assert(comps_view(r@) =~= Seq::<Seq<char>>::empty());
    }
    append_rules(&mut r, &f.windows);
    match os {
        OsFamily::Linux => append_rules(&mut r, &f.linux),
        OsFamily::Mac => append_rules(&mut r, &f.mac),
        OsFamily::Windows => {
            proof {
                assert(comps_view(r@) + Seq::<Seq<char>>::empty() =~= comps_view(r@));
            }
        },
    }
    r
}

} // verus!
