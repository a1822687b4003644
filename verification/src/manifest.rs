//! The manifest: the persisted record of one application's archived files.

use vstd::prelude::*;

verus! {

/// One archived file's record: portable path, content hash, size and the
/// live file's modification time when it was archived.
pub struct FileMetadata {
    /// Hexadecimal content digest of the archived bytes.
    pub hash: String,
    /// Modification time of the live file, in nanoseconds since the epoch.
    pub modified: u64,
    /// The file's portable path, concrete (no wildcards), as text.
    pub path: String,
    /// Size of the file in bytes.
    pub size: u64,
}

/// One application's manifest: its name and the records of its archived
/// files, portable paths unique.
pub struct GameInfo {
    pub name: String,
    pub files: Vec<FileMetadata>,
}

/// The manifest invariant: no two records share a portable path.
pub open spec fn wf_manifest(files: Seq<FileMetadata>) -> bool {
    forall|i: int, j: int|
        0 <= i < j < files.len() ==> (#[trigger] files[i]).path@ != (#[trigger] files[j]).path@
}

/// Index of the first record for `path`, if any.
pub open spec fn spec_find_entry(files: Seq<FileMetadata>, path: Seq<char>) -> Option<int>
    decreases files.len(),
{
    if files.len() == 0 {
        None
    } else if files[0].path@ == path {
        Some(0)
    } else {
        match spec_find_entry(files.drop_first(), path) {
            Some(i) => Some(i + 1),
            None => None,
        }
    }
}

/// What a found index means: in range, matching, and first.
pub proof fn lemma_find_entry(files: Seq<FileMetadata>, path: Seq<char>)
    ensures
        match spec_find_entry(files, path) {
            Some(i) => 0 <= i < files.len() && files[i].path@ == path && forall|j: int|
                0 <= j < i ==> (#[trigger] files[j]).path@ != path,
            None => forall|j: int| 0 <= j < files.len() ==> (#[trigger] files[j]).path@ != path,
        },
    decreases files.len(),
{
    if files.len() > 0 && files[0].path@ != path {
        let d = files.drop_first();
        lemma_find_entry(d, path);
        match spec_find_entry(d, path) {
            Some(i) => {
                assert(d[i] == files[i + 1]);
                assert forall|j: int| 0 <= j < i + 1 implies (#[trigger] files[j]).path@
                    != path by {
                    if j > 0 {
                        assert(d[j - 1] == files[j]);
                    }
                }
            },
            None => {
                assert forall|j: int| 0 <= j < files.len() implies (#[trigger] files[j]).path@
                    != path by {
                    if j > 0 {
                        assert(d[j - 1] == files[j]);
                    }
                }
            },
        }
    }
}

/// Copies one record.
pub fn clone_entry(m: &FileMetadata) -> (r: FileMetadata)
    ensures
        r == *m,
{
    let r = FileMetadata {
        hash: m.hash.clone(),
        modified: m.modified,
        path: m.path.clone(),
        size: m.size,
    };
    r
}

/// Finds the first record for a portable path.
pub fn find_entry(files: &Vec<FileMetadata>, path: &String) -> (r: Option<usize>)
    ensures
        match r {
            Some(i) => spec_find_entry(files@, path@) == Some(i as int),
            None => spec_find_entry(files@, path@) is None,
        },
{
    let ghost fv = files@;
    let mut i: usize = 0;
    while i < files.len()
        invariant
            fv == files@,
            0 <= i <= fv.len(),
            forall|j: int| 0 <= j < i ==> (#[trigger] fv[j]).path@ != path@,
        decreases fv.len() - i,
    {
        if files[i].path.eq(path) {
            proof {
                lemma_find_entry(fv, path@);
                match spec_find_entry(fv, path@) {
                    Some(k) => {
                        assert(!(k < i) && !(k > i));
                    },
                    None => {
                        assert(fv[i as int].path@ == path@);
                    },
                }
            }
            return Some(i);
        }
        i += 1;
    }
    proof {
        lemma_find_entry(fv, path@);
    }
    None
}

} // verus!
