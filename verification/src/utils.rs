//! Repository discovery and the staging index file: pure decisions over
//! what the caller found on disk.

use vstd::prelude::*;
use crate::codec::{dec_index, decode_index, enc_index, encode_index, index_paths_unique, lemma_index_round_trip};
use crate::errors::GitError;
use crate::types::{Index, IndexEntryView, Repository};

verus! {

/// One ancestor directory of the starting point, as probed by the caller:
/// the directory itself, the store root it would hold, and whether that
/// store root exists.
#[derive(Debug, Clone)]
pub struct DirProbe {
    pub dir: String,
    pub git_dir: String,
    pub exists: bool,
}

/// The store root of the nearest ancestor that has one. `candidates` lists
/// the ancestors nearest first.
pub fn find_git_dir(candidates: &Vec<DirProbe>) -> (r: Option<String>)
    ensures
        match r {
            Some(g) => exists|i: int|
                0 <= i < candidates@.len() && (#[trigger] candidates@[i]).exists && g@
                    == candidates@[i].git_dir@ && forall|j: int|
                    0 <= j < i ==> !(#[trigger] candidates@[j]).exists,
            None => forall|i: int|
                0 <= i < candidates@.len() ==> !(#[trigger] candidates@[i]).exists,
        },
{
    let mut i: usize = 0;
    while i < candidates.len()
        invariant
            i <= candidates@.len(),
            forall|j: int| 0 <= j < i ==> !(#[trigger] candidates@[j]).exists,
        decreases candidates@.len() - i,
    {
        if candidates[i].exists {
            return Some(candidates[i].git_dir.clone());
        }
        i += 1;
    }
    None
}

/// Resolves the repository handle from the probed ancestors, nearest
/// first: the first store root found, with its directory as working root.
pub fn get_repository(candidates: &Vec<DirProbe>) -> (r: Result<Repository, GitError>)
    ensures
        match r {
            Ok(repo) => exists|i: int|
                0 <= i < candidates@.len() && (#[trigger] candidates@[i]).exists && repo.git_dir@
                    == candidates@[i].git_dir@ && repo.work_dir@ == candidates@[i].dir@ && forall|
                    j: int,
                |
                    0 <= j < i ==> !(#[trigger] candidates@[j]).exists,
            Err(e) => e == GitError::NotARepository && forall|i: int|
                0 <= i < candidates@.len() ==> !(#[trigger] candidates@[i]).exists,
        },
{
    let mut i: usize = 0;
    while i < candidates.len()
        invariant
            i <= candidates@.len(),
            forall|j: int| 0 <= j < i ==> !(#[trigger] candidates@[j]).exists,
        decreases candidates@.len() - i,
    {
        if candidates[i].exists {
            return Ok(
                Repository {
                    git_dir: candidates[i].git_dir.clone(),
                    work_dir: candidates[i].dir.clone(),
                },
            );
        }
        i += 1;
    }
    Err(GitError::NotARepository)
}

/// Reads the staging index from its stored bytes; an absent file means an
/// empty index, the first-use state.
pub fn load_index(content: Option<&Vec<u8>>) -> (r: Result<Index, GitError>)
    ensures
        match content {
            None => r matches Ok(ix) && ix@ == Seq::<IndexEntryView>::empty() && ix.wf(),
            Some(bytes) => match r {
                Ok(ix) => dec_index(bytes@) == Some(ix@) && ix.wf(),
                Err(e) => dec_index(bytes@) is None && e == GitError::MalformedObject,
            },
        },
{
    match content {
        None => {
            let ix = Index::new();
            proof {
                assert(ix@ =~= Seq::<IndexEntryView>::empty());
            }
            Ok(ix)
        },
        Some(bytes) => decode_index(bytes.as_slice()),
    }
}

/// Serializes the staging index; the whole file is rewritten on every
/// change, last writer winning. Loading the result restores the index.
pub fn save_index(index: &Index) -> (r: Vec<u8>)
    ensures
        r@ == enc_index(index@),
        index.wf() ==> dec_index(r@) == Some(index@),
{
    let out = encode_index(index);
    proof {
        if index.wf() {
            assert(index_paths_unique(index@));
            lemma_index_round_trip(index@);
        }
    }
    out
}

} // verus!
