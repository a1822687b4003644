//! The restore engine's decisions.
//!
//! A restore first verifies every archived file against the manifest —
//! [`check_archive`] — and aborts on the first mismatch, before anything is
//! copied.  Then [`restore_targets`] expands each record's portable path to
//! its concrete live path, and [`restore_decisions`] picks exactly the
//! records whose live file is missing or stale.

use crate::context::{spec_replacements, replacements, ResolutionContext};
use crate::errors::EngineError;
use crate::hashing::{blake3_hex_of, hash_matches};
use crate::manifest::{FileMetadata, GameInfo};
use crate::paths::{comps_view, spec_split};
use crate::resolver::{expand, first_unresolved, spec_expand};
use crate::template::{file_name, parse_portable, spec_parse_portable};
use vstd::prelude::*;

verus! {

/// A record's bytes are present and hash to its recorded digest.
pub open spec fn entry_matches(entry: FileMetadata, data: Option<Vec<u8>>) -> bool {
    data matches Some(d) && entry.hash@ == blake3_hex_of(d@)
}

/// The first `k` records all match their bytes.
pub open spec fn all_match_before(
    files: Seq<FileMetadata>,
    data: Seq<Option<Vec<u8>>>,
    k: int,
) -> bool {
    forall|j: int| 0 <= j < k ==> entry_matches(#[trigger] files[j], data[j])
}

/// Verifies every archived file against the manifest.  Fails on the first
/// record whose archived bytes are missing or hash differently, naming
/// that file — before anything is copied.
pub fn check_archive(manifest: &GameInfo, archived: &Vec<Option<Vec<u8>>>) -> (r: Result<
    (),
    EngineError,
>)
    requires
        archived@.len() == manifest.files@.len(),
    ensures
        match r {
            Ok(_) => all_match_before(manifest.files@, archived@, manifest.files@.len() as int),
            Err(e) => exists|i: int|
                #![trigger manifest.files@[i]]
                {
                    &&& 0 <= i < manifest.files@.len()
                    &&& all_match_before(manifest.files@, archived@, i)
                    &&& !entry_matches(manifest.files@[i], archived@[i])
                    &&& e matches EngineError::CorruptedArchive(n) && n@ == spec_split(
                        manifest.files@[i].path@,
                    ).last()
                },
        },
{
    let ghost files = manifest.files@;
    let mut i: usize = 0;
    while i < manifest.files.len()
        invariant
            files == manifest.files@,
            archived@.len() == files.len(),
            0 <= i <= files.len(),
            all_match_before(files, archived@, i as int),
        decreases files.len() - i,
    {
        let entry = &manifest.files[i];
        let good = match &archived[i] {
            Some(d) => hash_matches(&entry.hash, d),
            None => false,
        };
        if !good {
            let n = file_name(entry.path.as_str());
            return Err(EngineError::CorruptedArchive(n));
        }
        i += 1;
    }
    Ok(())
}

/// The concrete live path a record's portable path expands to.
pub open spec fn target_of(entry: FileMetadata, ctx: ResolutionContext) -> Option<Seq<Seq<char>>> {
    spec_expand(spec_parse_portable(entry.path@), spec_replacements(ctx))
}

/// Expands every record's portable path to its concrete live path,
/// failing on the first record the context cannot resolve.
pub fn restore_targets(manifest: &GameInfo, ctx: &ResolutionContext) -> (r: Result<
    Vec<Vec<String>>,
    EngineError,
>)
    ensures
        match r {
            Ok(ts) => {
                &&& ts@.len() == manifest.files@.len()
                &&& forall|i: int|
                    0 <= i < ts@.len() ==> target_of(#[trigger] manifest.files@[i], *ctx) == Some(
                        comps_view(ts@[i]@),
                    )
            },
            Err(e) => exists|i: int|
                #![trigger manifest.files@[i]]
                {
                    &&& 0 <= i < manifest.files@.len()
                    &&& target_of(manifest.files@[i], *ctx) is None
                    &&& first_unresolved(
                        spec_parse_portable(manifest.files@[i].path@),
                        spec_replacements(*ctx),
                    ) matches Some(t) && e == EngineError::MissingContext(t)
                },
        },
{
    let reps = replacements(ctx);
    let ghost files = manifest.files@;
    let mut ts: Vec<Vec<String>> = Vec::new();
    let mut i: usize = 0;
    while i < manifest.files.len()
        invariant
            files == manifest.files@,
            crate::resolver::reps_view(reps@) == spec_replacements(*ctx),
            0 <= i <= files.len(),
            ts@.len() == i,
            forall|j: int|
                0 <= j < i ==> target_of(#[trigger] files[j], *ctx) == Some(comps_view(ts@[j]@)),
        decreases files.len() - i,
    {
        let entry = &manifest.files[i];
        let portable = parse_portable(entry.path.as_str());
        match expand(&portable, &reps) {
            Ok(target) => {
                ts.push(target);
            },
            Err(e) => {
                return Err(e);
            },
        }
        i += 1;
    }
    Ok(ts)
}

/// Picks the records to copy: exactly those whose live file is missing or
/// hashes differently from the record.  Returns the per-record choice and
/// whether anything must be copied at all.
pub fn restore_decisions(manifest: &GameInfo, live: &Vec<Option<Vec<u8>>>) -> (r: (Vec<bool>, bool))
    requires
        live@.len() == manifest.files@.len(),
    ensures
        r.0@.len() == manifest.files@.len(),
        forall|i: int|
            0 <= i < r.0@.len() ==> r.0@[i] == !entry_matches(#[trigger] manifest.files@[i], live@[i]),
        r.1 == exists|i: int| 0 <= i < r.0@.len() && r.0@[i],
{
    let ghost files = manifest.files@;
    let mut copies: Vec<bool> = Vec::new();
    let mut any = false;
    let mut i: usize = 0;
    while i < manifest.files.len()
        invariant
            files == manifest.files@,
            live@.len() == files.len(),
            0 <= i <= files.len(),
            copies@.len() == i,
            forall|j: int|
                0 <= j < i ==> copies@[j] == !entry_matches(#[trigger] files[j], live@[j]),
            any == exists|j: int| 0 <= j < i && copies@[j],
        decreases files.len() - i,
    {
        let entry = &manifest.files[i];
        let ok = match &live[i] {
            Some(d) => hash_matches(&entry.hash, d),
            None => false,
        };
        let ghost c0 = copies@;
        let ghost any0 = any;
        copies.push(!ok);
        if !ok {
            any = true;
        }
        proof {
            if any {
                if !ok {
                    assert(copies@[i as int]);
                } else {
                    let j = choose|j: int| 0 <= j < i && c0[j];
                    assert(copies@[j]);
                }
            } else {
                assert forall|j: int| 0 <= j < i + 1 implies !(#[trigger] copies@[j]) by {
                    if j < i {
                        assert(copies@[j] == c0[j]);
                        assert(!c0[j]);
                    }
                }
            }
        }
        i += 1;
    }
    (copies, any)
}

/// Law: when every live file already matches its record, a restore copies
/// nothing and reports that nothing was restored.
pub proof fn lemma_restore_noop(
    copies: Seq<bool>,
    restored: bool,
    files: Seq<FileMetadata>,
    live: Seq<Option<Vec<u8>>>,
)
    requires
        copies.len() == files.len(),
        forall|i: int| 0 <= i < copies.len() ==> copies[i] == !entry_matches(#[trigger] files[i], live[i]),
        restored == exists|i: int| 0 <= i < copies.len() && copies[i],
        forall|i: int| 0 <= i < files.len() ==> entry_matches(#[trigger] files[i], live[i]),
    ensures
        !restored,
        forall|i: int| 0 <= i < copies.len() ==> !copies[i],
{
    assert forall|i: int| 0 <= i < copies.len() implies !copies[i] by {
        assert(entry_matches(files[i], live[i]));
    }
    if restored {
        let i = choose|i: int| 0 <= i < copies.len() && copies[i];
        assert(!copies[i]);
    }
}

} // verus!
