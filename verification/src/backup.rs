//! The incremental backup engine's decisions.
//!
//! Backing one application up proceeds in three steps.  First
//! [`plan_backup`] decides, per discovered live file, whether its manifest
//! record can be carried forward without rereading the file — the
//! skip-rehash rule — or whether the file must be hashed.  The caller then
//! reads and hands over the bytes of each file to be hashed, and
//! [`resolve_rehash`] decides whether that file really changed.  Finally
//! [`assemble_manifest`] builds the new manifest, or reports that nothing
//! changed and nothing must be written.

use crate::context::{spec_replacements, replacements, ResolutionContext};
use crate::hashing::{blake3_hex_of, hash_bytes};
use crate::manifest::{clone_entry, find_entry, lemma_find_entry, spec_find_entry, wf_manifest,
    FileMetadata, GameInfo};
use crate::paths::comps_view;
use crate::resolver::{shrink, spec_shrink};
use crate::template::{render_portable, spec_render};
use vstd::prelude::*;

verus! {

/// One candidate live file: its concrete path and modification time in
/// nanoseconds since the epoch.
pub struct LiveFile {
    pub path: Vec<String>,
    pub modified: u64,
}

/// The backup decision for one candidate file.
pub enum PlanItem {
    /// The manifest record is still good: no reread, no copy.
    Carry { entry: FileMetadata },
    /// The file must be hashed; `previous` is its manifest record, if any.
    Rehash { portable: String, previous: Option<FileMetadata> },
}

/// The portable text of a concrete path under a context.
pub open spec fn spec_portable_text(path: Seq<Seq<char>>, ctx: ResolutionContext) -> Seq<char> {
    spec_render(spec_shrink(path, spec_replacements(ctx)))
}

/// The records of an optional previous manifest.
pub open spec fn prev_files(previous: Option<GameInfo>) -> Seq<FileMetadata> {
    match previous {
        Some(m) => m.files@,
        None => Seq::<FileMetadata>::empty(),
    }
}

/// What the plan owes one candidate: carry the record exactly when one
/// exists and the file's modification time has not advanced past it.
pub open spec fn plan_item_ok(
    item: PlanItem,
    cand: LiveFile,
    prev: Seq<FileMetadata>,
    ctx: ResolutionContext,
) -> bool {
    let port = spec_portable_text(comps_view(cand.path@), ctx);
    match spec_find_entry(prev, port) {
        Some(j) => if cand.modified <= prev[j].modified {
            item == (PlanItem::Carry { entry: prev[j] })
        } else {
            item matches PlanItem::Rehash { portable, previous } && portable@ == port && previous
                == Some(prev[j])
        },
        None => item matches PlanItem::Rehash { portable, previous } && portable@ == port
            && previous is None,
    }
}

/// Decides, per candidate, whether its record can be carried forward or
/// the file must be hashed.
pub fn plan_backup(
    cands: &Vec<LiveFile>,
    ctx: &ResolutionContext,
    previous: &Option<GameInfo>,
) -> (r: Vec<PlanItem>)
    ensures
        r@.len() == cands@.len(),
        forall|i: int|
            0 <= i < cands@.len() ==> plan_item_ok(
                #[trigger] r@[i],
                cands@[i],
                prev_files(*previous),
                *ctx,
            ),
{
    let reps = replacements(ctx);
    let ghost prev = prev_files(*previous);
    let mut r: Vec<PlanItem> = Vec::new();
    let mut i: usize = 0;
    while i < cands.len()
        invariant
            prev == prev_files(*previous),
            crate::resolver::reps_view(reps@) == spec_replacements(*ctx),
            0 <= i <= cands@.len(),
            r@.len() == i,
            forall|j: int|
                0 <= j < i ==> plan_item_ok(#[trigger] r@[j], cands@[j], prev, *ctx),
        decreases cands@.len() - i,
    {
        let cand = &cands[i];
        let portable = render_portable(&shrink(&cand.path, &reps));
        let ghost port = spec_portable_text(comps_view(cand.path@), *ctx);
        proof {
            assert(portable@ == port);
        }
        let item = match previous {
            Some(m) => {
                proof {
                    lemma_find_entry(m.files@, portable@);
                }
                match find_entry(&m.files, &portable) {
                    Some(j) => {
                        let entry = &m.files[j];
                        if cand.modified <= entry.modified {
                            PlanItem::Carry { entry: clone_entry(entry) }
                        } else {
                            PlanItem::Rehash { portable, previous: Some(clone_entry(entry)) }
                        }
                    },
                    None => PlanItem::Rehash { portable, previous: None },
                }
            },
            None => PlanItem::Rehash { portable, previous: None },
        };
        r.push(item);
        i += 1;
    }
    r
}

/// What [`resolve_rehash`] owes: the record stays exactly as it was when
/// the bytes still hash to its recorded digest, else a fresh record.
pub open spec fn rehash_ok(
    r: (FileMetadata, bool),
    portable: Seq<char>,
    previous: Option<FileMetadata>,
    digest: Seq<char>,
    size: u64,
    modified: u64,
) -> bool {
    match previous {
        Some(p) => if p.hash@ == digest {
            r.0 == p && r.1 == false
        } else {
            fresh_record_ok(r, portable, digest, size, modified)
        },
        None => fresh_record_ok(r, portable, digest, size, modified),
    }
}

/// A fresh record for a changed file, and the changed flag set.
pub open spec fn fresh_record_ok(
    r: (FileMetadata, bool),
    portable: Seq<char>,
    digest: Seq<char>,
    size: u64,
    modified: u64,
) -> bool {
    &&& r.0.hash@ == digest
    &&& r.0.path@ == portable
    &&& r.0.size == size
    &&& r.0.modified == modified
    &&& r.1 == true
}

/// Hashes a to-be-rehashed file's bytes and decides whether it changed:
/// an unchanged hash carries the old record forward untouched.
pub fn resolve_rehash(
    portable: String,
    previous: &Option<FileMetadata>,
    data: &Vec<u8>,
    modified: u64,
) -> (r: (FileMetadata, bool))
    requires
        data@.len() <= u64::MAX,
    ensures
        rehash_ok(r, portable@, *previous, blake3_hex_of(data@), data@.len() as u64, modified),
{
    let digest = hash_bytes(data);
    match previous {
        Some(p) => {
            if p.hash.eq(&digest) {
                (clone_entry(p), false)
            } else {
                let entry = FileMetadata {
                    hash: digest,
                    modified,
                    path: portable,
                    size: data.len() as u64,
                };
                (entry, true)
            }
        },
        None => {
            let entry = FileMetadata {
                hash: digest,
                modified,
                path: portable,
                size: data.len() as u64,
            };
            (entry, true)
        },
    }
}

/// One resolved candidate: its record and whether the file changed.
pub struct ResolvedFile {
    pub entry: FileMetadata,
    pub changed: bool,
}

/// Builds the new manifest from the resolved records.  When no file
/// changed it returns `false` and no manifest: nothing is written, the
/// old manifest stays untouched.  The records' portable paths must be
/// distinct — the manifest invariant — and the produced manifest then
/// keeps it.
pub fn assemble_manifest(name: &String, resolved: &Vec<ResolvedFile>) -> (r: (bool, Option<
    GameInfo,
>))
    requires
        forall|a: int, b: int|
            0 <= a < b < resolved@.len() ==> (#[trigger] resolved@[a]).entry.path@
                != (#[trigger] resolved@[b]).entry.path@,
    ensures
        r.0 == exists|i: int| 0 <= i < resolved@.len() && (#[trigger] resolved@[i]).changed,
        if r.0 {
            r.1 matches Some(m) && m.name@ == name@ && m.files@ == resolved@.map_values(
                |f: ResolvedFile| f.entry,
            ) && wf_manifest(m.files@)
        } else {
            r.1 is None
        },
{
    let mut changed = false;
    let mut i: usize = 0;
    while i < resolved.len()
        invariant
            0 <= i <= resolved@.len(),
            changed == exists|j: int| 0 <= j < i && (#[trigger] resolved@[j]).changed,
        decreases resolved@.len() - i,
    {
        if resolved[i].changed {
            changed = true;
        }
        i += 1;
    }
    if !changed {
        return (false, None);
    }
    let mut files: Vec<FileMetadata> = Vec::new();
    let mut k: usize = 0;
    while k < resolved.len()
        invariant
            0 <= k <= resolved@.len(),
            files@.len() == k,
            forall|j: int| 0 <= j < k ==> #[trigger] files@[j] == resolved@[j].entry,
        decreases resolved@.len() - k,
    {
        files.push(clone_entry(&resolved[k].entry));
        k += 1;
    }
    proof {
        assert(files@ =~= resolved@.map_values(|f: ResolvedFile| f.entry));
        assert forall|a: int, b: int| 0 <= a < b < files@.len() implies (#[trigger] files@[a]).path@
            != (#[trigger] files@[b]).path@ by {
            assert(files@[a] == resolved@[a].entry && files@[b] == resolved@[b].entry);
        }
    }
    (true, Some(GameInfo { name: name.clone(), files }))
}

/// Law: a file whose modification time has not advanced past its manifest
/// record keeps that record unchanged, whatever the file's bytes now hold;
/// the plan never even asks for them.
pub proof fn lemma_skip_rehash(
    item: PlanItem,
    cand: LiveFile,
    prev: Seq<FileMetadata>,
    ctx: ResolutionContext,
    j: int,
)
    requires
        plan_item_ok(item, cand, prev, ctx),
        spec_find_entry(prev, spec_portable_text(comps_view(cand.path@), ctx)) == Some(j),
        cand.modified <= prev[j].modified,
    ensures
        item == (PlanItem::Carry { entry: prev[j] }),
{
}

/// Law: running backup again when every candidate still matches the
/// manifest written by the previous run carries every record forward, so
/// the run reports no change and writes nothing.
pub proof fn lemma_backup_idempotent(
    items: Seq<PlanItem>,
    cands: Seq<LiveFile>,
    m: GameInfo,
    ctx: ResolutionContext,
)
    requires
        items.len() == cands.len(),
        m.files@.len() == cands.len(),
        wf_manifest(m.files@),
        forall|i: int|
            0 <= i < items.len() ==> plan_item_ok(#[trigger] items[i], cands[i], m.files@, ctx),
        forall|i: int|
            0 <= i < cands.len() ==> (#[trigger] m.files@[i]).path@ == spec_portable_text(
                comps_view(cands[i].path@),
                ctx,
            ) && cands[i].modified <= m.files@[i].modified,
    ensures
        forall|i: int| 0 <= i < items.len() ==> items[i] == (PlanItem::Carry {
            entry: m.files@[i],
        }),
{
    assert forall|i: int| 0 <= i < items.len() implies items[i] == (PlanItem::Carry {
        entry: m.files@[i],
    }) by {
        let port = spec_portable_text(comps_view(cands[i].path@), ctx);
        lemma_find_entry(m.files@, port);
        match spec_find_entry(m.files@, port) {
            Some(k) => {
                if k != i {
                    assert(m.files@[k].path@ == m.files@[i].path@);
                }
                assert(k == i);
            },
            None => {
                assert(m.files@[i].path@ == port);
            },
        }
    }
}

} // verus!
