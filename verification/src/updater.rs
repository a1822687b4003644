//! Deciding whether a newer release exists.
//!
//! Fetching the release list is network work done by the surrounding
//! application; this module picks the newest stable release and compares
//! versions.

use vstd::prelude::*;

verus! {

/// One published release of the tool.
pub struct Release {
    /// The release's description text.
    pub body: String,
    /// The version tag the release was published under.
    pub tag_name: String,
    /// Whether the release is marked as a pre-release.
    pub pre_release: bool,
    /// Where the release can be downloaded.
    pub url: String,
}

/// The outcome of an update check.
pub enum UpdateStatus {
    UpToDate,
    Available(Release),
}

/// A release version's numeric triple.
#[derive(Clone, Copy, PartialEq, Eq, Structural, Debug)]
pub struct Version {
    pub major: u64,
    pub minor: u64,
    pub patch: u64,
}

/// The numeric triple a version text denotes, if it parses; a function of
/// the text alone.
pub uninterp spec fn semver_triple_of(s: Seq<char>) -> Option<(u64, u64, u64)>;

/// Relies on semver::Version::parse: the numeric fields of a parsed
/// version depend on the text alone.
#[verifier::external_body]
fn parse_version_raw(s: &str) -> (r: Option<Version>)
    ensures
        match r {
            Some(v) => semver_triple_of(s@) == Some((v.major, v.minor, v.patch)),
            None => semver_triple_of(s@) is None,
        },
{
    match semver::Version::parse(s) {
        Ok(v) => Some(Version { major: v.major, minor: v.minor, patch: v.patch }),
        Err(_) => None,
    }
}

/// Reads a version text's numeric triple.
pub fn parse_version(s: &str) -> (r: Option<Version>)
    ensures
        match r {
            Some(v) => semver_triple_of(s@) == Some((v.major, v.minor, v.patch)),
            None => semver_triple_of(s@) is None,
        },
{
    parse_version_raw(s)
}

/// Numeric version order: major first, then minor, then patch.
pub open spec fn spec_version_lt(a: Version, b: Version) -> bool {
    if a.major != b.major {
        a.major < b.major
    } else if a.minor != b.minor {
        a.minor < b.minor
    } else {
        a.patch < b.patch
    }
}

/// Whether `a` is an older version than `b`.
pub fn version_lt(a: &Version, b: &Version) -> (r: bool)
    ensures
        r == spec_version_lt(*a, *b),
{
    if a.major != b.major {
        a.major < b.major
    } else if a.minor != b.minor {
        a.minor < b.minor
    } else {
        a.patch < b.patch
    }
}

/// Index of the first release not marked as a pre-release, if any.
pub open spec fn spec_first_stable(rs: Seq<Release>) -> Option<int>
    decreases rs.len(),
{
    if rs.len() == 0 {
        None
    } else if !rs[0].pre_release {
        Some(0)
    } else {
        match spec_first_stable(rs.drop_first()) {
            Some(i) => Some(i + 1),
            None => None,
        }
    }
}

proof fn lemma_first_stable(rs: Seq<Release>)
    ensures
        match spec_first_stable(rs) {
            Some(i) => 0 <= i < rs.len() && !rs[i].pre_release && forall|j: int|
                0 <= j < i ==> (#[trigger] rs[j]).pre_release,
            None => forall|j: int| 0 <= j < rs.len() ==> (#[trigger] rs[j]).pre_release,
        },
    decreases rs.len(),
{
    if rs.len() > 0 && rs[0].pre_release {
        let d = rs.drop_first();
        lemma_first_stable(d);
        match spec_first_stable(d) {
            Some(i) => {
                assert(d[i] == rs[i + 1]);
                assert forall|j: int| 0 <= j < i + 1 implies (#[trigger] rs[j]).pre_release by {
                    if j > 0 {
                        assert(d[j - 1] == rs[j]);
                    }
                }
            },
            None => {
                assert forall|j: int| 0 <= j < rs.len() implies (#[trigger] rs[j]).pre_release by {
                    if j > 0 {
                        assert(d[j - 1] == rs[j]);
                    }
                }
            },
        }
    }
}

/// What an update check owes: the newest stable release when its tag
/// parses and is newer than the running version, else up to date.
pub open spec fn update_status_ok(r: UpdateStatus, rs: Seq<Release>, current: Version) -> bool {
    match spec_first_stable(rs) {
        None => r == UpdateStatus::UpToDate,
        Some(i) => match semver_triple_of(rs[i].tag_name@) {
            None => r == UpdateStatus::UpToDate,
            Some(t) => {
                let latest = Version { major: t.0, minor: t.1, patch: t.2 };
                if spec_version_lt(current, latest) {
                    r matches UpdateStatus::Available(rel) && rel == rs[i]
                } else {
                    r == UpdateStatus::UpToDate
                }
            },
        },
    }
}

fn clone_release(r: &Release) -> (c: Release)
    ensures
        c == *r,
{
    Release {
        body: r.body.clone(),
        tag_name: r.tag_name.clone(),
        pre_release: r.pre_release,
        url: r.url.clone(),
    }
}

/// Picks the newest stable release and compares it to the running
/// version.  A release list whose first stable tag does not parse counts
/// as up to date: nothing to offer.
pub fn select_update(releases: &Vec<Release>, current: &Version) -> (r: UpdateStatus)
    ensures
        update_status_ok(r, releases@, *current),
{
    let ghost rv = releases@;
    let mut i: usize = 0;
    while i < releases.len()
        invariant
            rv == releases@,
            0 <= i <= rv.len(),
            forall|j: int| 0 <= j < i ==> (#[trigger] rv[j]).pre_release,
        decreases rv.len() - i,
    {
        if !releases[i].pre_release {
            proof {
                lemma_first_stable(rv);
                match spec_first_stable(rv) {
                    Some(k) => {
                        assert(!(k < i) && !(k > i));
                    },
                    None => {
                        assert(!rv[i as int].pre_release);
                    },
                }
            }
            let latest = &releases[i];
            match parse_version(latest.tag_name.as_str()) {
                Some(v) => {
                    if version_lt(current, &v) {
                        return UpdateStatus::Available(clone_release(latest));
                    } else {
                        return UpdateStatus::UpToDate;
                    }
                },
                None => {
                    return UpdateStatus::UpToDate;
                },
            }
        }
        i += 1;
    }
    proof {
        lemma_first_stable(rv);
    }
    UpdateStatus::UpToDate
}

} // verus!
