//! The commit builder: turns the staged index into a persisted tree object
//! and a persisted commit object linked to the current branch's previous
//! tip, then advances the branch ref. The index is left as it is: a repeat
//! commit with no new staging reproduces the same tree.

use vstd::prelude::*;
use vstd::string::StringExecFns;
use vstd::utf8::encode_utf8;
use crate::codec::{enc_commit, enc_tree, enc_tree_body, encode_tree_body};
use crate::compress::zlib_inflate;
use crate::errors::GitError;
use crate::hashing::sha256_hex;
use crate::object_store::ObjectStore;
use crate::refs::{get_current_branch, get_branch_commit, spec_set_branch, update_branch, RefState};
use crate::types::{
    opt_str_view, Commit, CommitView, Index, IndexEntryView, Tree, TreeEntry, TreeEntryView,
    TreeView,
};

verus! {

/// The author recorded when none is supplied.
pub open spec fn default_author() -> Seq<char> {
    "Unknown email <unknown@example.com>"@
}

/// The tree entry a staged entry becomes: the full relative path as a flat
/// name, always a regular file.
pub open spec fn tree_entry_of(e: IndexEntryView) -> TreeEntryView {
    TreeEntryView { mode: e.mode, hash: e.hash, name: e.path, is_file: true }
}

/// The characters whose UTF-8 digest is a commit's identity: tree digest,
/// parent digest or nothing, author, message. The timestamp is deliberately
/// no part of it, so commits differing only in time share an identity.
pub open spec fn commit_id_content(
    tree: Seq<char>,
    parent: Option<Seq<char>>,
    author: Seq<char>,
    message: Seq<char>,
) -> Seq<char> {
    tree + (match parent {
        Some(p) => p,
        None => Seq::<char>::empty(),
    }) + author + message
}

/// A commit's identity.
pub open spec fn commit_id(
    tree: Seq<char>,
    parent: Option<Seq<char>>,
    author: Seq<char>,
    message: Seq<char>,
) -> Seq<char> {
    sha256_hex(encode_utf8(commit_id_content(tree, parent, author, message)))
}

/// Commits the staged index: builds the tree, persists it, persists the
/// commit pointing at the current branch's previous tip, and advances the
/// branch ref to the new commit's identity. Fails with `NothingToCommit`,
/// leaving everything untouched, exactly when the index is empty.
///
/// The commit is stored after the tree, so should the two identities ever
/// coincide the commit's payload is the one left standing — hence the tree
/// payload is only promised under distinct identities.
pub fn commit(
    refs: &mut RefState,
    index: &Index,
    store: &mut ObjectStore,
    message: String,
    author: Option<String>,
    timestamp: u64,
) -> (r: Result<String, GitError>)
    requires
        old(refs).wf(),
        old(store).wf(),
        index.wf(),
    ensures
        final(refs).wf(),
        final(store).wf(),
        final(store).objects_dir == old(store).objects_dir,
        index@.len() == 0 ==> (r == Err::<String, GitError>(GitError::NothingToCommit)
            && *final(refs) == *old(refs) && *final(store) == *old(store)),
        index@.len() > 0 ==> ({
            let entries = index@.map_values(|e: IndexEntryView| tree_entry_of(e));
            let tree_hash = sha256_hex(enc_tree_body(entries));
            let branch = old(refs).spec_current_branch();
            let parent = if old(refs).has_branch(branch) {
                Some(old(refs).branch_tip(branch))
            } else {
                None
            };
            let author_v = match author {
                Some(a) => a@,
                None => default_author(),
            };
            let cid = commit_id(tree_hash, parent, author_v, message@);
            &&& r matches Ok(h) && h@ == cid
            &&& final(refs).head == old(refs).head
            &&& final(refs).branches_view() == spec_set_branch(
                old(refs).branches_view(),
                branch,
                cid,
            )
            &&& final(store)@.contains_key(tree_hash)
            &&& cid != tree_hash ==> zlib_inflate(final(store)@[tree_hash]) == Some(
                enc_tree(TreeView { hash: tree_hash, entries }),
            )
            &&& final(store)@.contains_key(cid)
            &&& zlib_inflate(final(store)@[cid]) == Some(
                enc_commit(
                    CommitView {
                        hash: cid,
                        parent,
                        tree: tree_hash,
                        author: author_v,
                        message: message@,
                        timestamp,
                    },
                ),
            )
            &&& final(store)@.dom() == old(store)@.dom().insert(tree_hash).insert(cid)
            &&& forall|k: Seq<char>|
                old(store)@.contains_key(k) && k != tree_hash && k != cid ==> final(store)@[k]
                    == old(store)@[k]
        }),
{
    if index.is_empty() {
        return Err(GitError::NothingToCommit);
    }
    let ghost entries_v = index@.map_values(|e: IndexEntryView| tree_entry_of(e));
    let mut tree_entries: Vec<TreeEntry> = Vec::new();
    let mut i: usize = 0;
    while i < index.entries.len()
        invariant
            i <= index@.len(),
            entries_v == index@.map_values(|e: IndexEntryView| tree_entry_of(e)),
            tree_entries@.map_values(|e: TreeEntry| e@) =~= entries_v.take(i as int),
            index.wf(),
        decreases index@.len() - i,
    {
        let e = &index.entries[i];
        let te = TreeEntry {
            mode: e.mode.clone(),
            hash: e.hash.clone(),
            name: e.path.clone(),
            is_file: true,
        };
        proof {
            assert(te@ == tree_entry_of(index@[i as int]));
            assert(tree_entries@.push(te).map_values(|x: TreeEntry| x@) =~= tree_entries@.map_values(
                |x: TreeEntry| x@,
            ).push(te@));
            assert(entries_v.take(i as int).push(entries_v[i as int]) =~= entries_v.take(
                i as int + 1,
            ));
        }
        tree_entries.push(te);
        i += 1;
    }
    proof {
        assert(entries_v.take(entries_v.len() as int) =~= entries_v);
    }
    let body = encode_tree_body(&tree_entries);
    let tree_hash = ObjectStore::hash_content(body.as_slice());
    let tree = Tree { hash: tree_hash.clone(), entries: tree_entries };
    let _ = store.store_tree(&tree);
    let current_branch = get_current_branch(refs);
    let parent = get_branch_commit(refs, current_branch.as_str());
    let author_s = match author {
        Some(a) => a,
        None => "Unknown email <unknown@example.com>".to_owned(),
    };
    let mut content = tree_hash.clone();
    match &parent {
        Some(p) => {
            content.append(p.as_str());
        },
        None => {
            proof {
                assert(content@ + Seq::<char>::empty() =~= content@);
            }
        },
    }
    content.append(author_s.as_str());
    content.append(message.as_str());
    let commit_hash = ObjectStore::hash_content(content.as_str().as_bytes());
    let c = Commit {
        hash: commit_hash.clone(),
        parent,
        tree: tree_hash,
        author: author_s,
        message,
        timestamp,
    };
    let _ = store.store_commit(&c);
    proof {
        assert(store@.dom() =~= old(store)@.dom().insert(tree.hash@).insert(commit_hash@));
        assert(opt_str_view(c.parent) == (if old(refs).has_branch(
            old(refs).spec_current_branch(),
        ) {
            Some(old(refs).branch_tip(old(refs).spec_current_branch()))
        } else {
            None::<Seq<char>>
        }));
    }
    update_branch(refs, current_branch.as_str(), commit_hash.as_str());
    Ok(commit_hash)
}

} // verus!
