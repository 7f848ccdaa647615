//! Branch management: listing refs, creating a branch at the current tip,
//! and deleting a ref. Deleting the checked-out branch is not guarded; HEAD
//! may then name a branch that no longer exists.

use vstd::prelude::*;
use crate::errors::GitError;
use crate::refs::{
    delete_branch, get_branch_commit, get_current_branch, spec_remove_branch, spec_set_branch,
    update_branch, RefState,
};

verus! {

/// What a branch command did: created or deleted the named ref, or listed
/// every ref, marking the current branch.
#[derive(Debug, Clone)]
pub enum BranchOutcome {
    Created { name: String },
    Deleted { name: String },
    Listing { branches: Vec<(String, bool)> },
}

/// Creates or deletes the named branch, or with no name lists the refs.
/// Creation fails with `NoCommitsYet` where the current branch has no tip;
/// deletion fails with `BranchNotFound` where no such ref exists.
pub fn branch(refs: &mut RefState, name: Option<String>, delete: bool) -> (r: Result<
    BranchOutcome,
    GitError,
>)
    requires
        old(refs).wf(),
    ensures
        final(refs).wf(),
        final(refs).head == old(refs).head,
        match name {
            Some(n) => if delete {
                if old(refs).has_branch(n@) {
                    r matches Ok(BranchOutcome::Deleted { name: m }) && m@ == n@
                        && final(refs).branches_view() == spec_remove_branch(
                        old(refs).branches_view(),
                        n@,
                    )
                } else {
                    r == Err::<BranchOutcome, GitError>(GitError::BranchNotFound) && *final(refs)
                        == *old(refs)
                }
            } else {
                if old(refs).has_branch(old(refs).spec_current_branch()) {
                    r matches Ok(BranchOutcome::Created { name: m }) && m@ == n@
                        && final(refs).branches_view() == spec_set_branch(
                        old(refs).branches_view(),
                        n@,
                        old(refs).branch_tip(old(refs).spec_current_branch()),
                    )
                } else {
                    r == Err::<BranchOutcome, GitError>(GitError::NoCommitsYet) && *final(refs)
                        == *old(refs)
                }
            },
            None => *final(refs) == *old(refs) && (r matches Ok(BranchOutcome::Listing {
                branches: l,
            }) && l@.len() == old(refs).branches_view().len() && (forall|i: int|
                0 <= i < l@.len() ==> (#[trigger] l@[i]).0@ == old(refs).branches_view()[i].name && l@[
                    i
                ].1 == (old(refs).branches_view()[i].name == old(refs).spec_current_branch()))),
        },
{
    match name {
        Some(n) => {
            if delete {
                match refs.find_branch(n.as_str()) {
                    Some(i) => {
                        proof {
                            let bv = old(refs).branches_view();
                            assert(bv[i as int].name == n@);
                        }
                        delete_branch(refs, i);
                        Ok(BranchOutcome::Deleted { name: n })
                    },
                    None => Err(GitError::BranchNotFound),
                }
            } else {
                let cur = get_current_branch(refs);
                match get_branch_commit(refs, cur.as_str()) {
                    Some(c) => {
                        update_branch(refs, n.as_str(), c.as_str());
                        Ok(BranchOutcome::Created { name: n })
                    },
                    None => Err(GitError::NoCommitsYet),
                }
            }
        },
        None => {
            let cur = get_current_branch(refs);
            let mut listing: Vec<(String, bool)> = Vec::new();
            let mut i: usize = 0;
            while i < refs.branches.len()
                invariant
                    i <= refs.branches_view().len(),
                    cur@ == refs.spec_current_branch(),
                    listing@.len() == i,
                    forall|j: int|
                        0 <= j < i ==> (#[trigger] listing@[j]).0@ == refs.branches_view()[j].name
                            && listing@[j].1 == (refs.branches_view()[j].name
                            == refs.spec_current_branch()),
                decreases refs.branches_view().len() - i,
            {
                let b = &refs.branches[i];
                let is_current = b.name == cur;
                listing.push((b.name.clone(), is_current));
                i += 1;
            }
            Ok(BranchOutcome::Listing { branches: listing })
        },
    }
}

} // verus!
