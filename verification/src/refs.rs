//! The repository's mutable pointers: HEAD — attached to a branch or
//! detached at a commit — and the named branch refs, each a pointer to a
//! commit. The caller reads the ref files into a `RefState` and writes the
//! state back out after a command.

use vstd::prelude::*;
use vstd::string::{StrSliceExecFns, StringExecFns};
use crate::strutil::{trim_spec, trim_str};
use crate::types::{Branch, BranchView};

verus! {

/// The HEAD pointer: the currently checked-out branch, or a commit when
/// detached.
#[derive(Debug, Clone)]
pub enum Head {
    Attached { branch: String },
    Detached { commit: String },
}

/// The symbolic-reference prefix a stored HEAD carries when attached.
pub open spec fn head_prefix() -> Seq<char> {
    "ref: refs/heads/"@
}

/// The repository's ref state: HEAD and the branch refs, in their on-disk
/// order, with pairwise distinct names.
#[derive(Debug, Clone)]
pub struct RefState {
    pub head: Head,
    pub branches: Vec<Branch>,
}

/// Replaces the commit of the named branch, or appends the branch.
pub open spec fn spec_set_branch(bs: Seq<BranchView>, name: Seq<char>, commit: Seq<char>) -> Seq<
    BranchView,
>
    decreases bs.len(),
{
    if bs.len() == 0 {
        seq![BranchView { name, commit }]
    } else if bs[0].name == name {
        seq![BranchView { name, commit }] + bs.drop_first()
    } else {
        seq![bs[0]] + spec_set_branch(bs.drop_first(), name, commit)
    }
}

/// Removes the named branch, keeping the others in order.
pub open spec fn spec_remove_branch(bs: Seq<BranchView>, name: Seq<char>) -> Seq<BranchView>
    decreases bs.len(),
{
    if bs.len() == 0 {
        bs
    } else if bs[0].name == name {
        bs.drop_first()
    } else {
        seq![bs[0]] + spec_remove_branch(bs.drop_first(), name)
    }
}

impl RefState {
    pub open spec fn branches_view(self) -> Seq<BranchView> {
        self.branches@.map_values(|b: Branch| b@)
    }

    /// Branch names are pairwise distinct: the ref list is a mapping.
    pub open spec fn wf(self) -> bool {
        forall|i: int, j: int|
            0 <= i < j < self.branches_view().len() ==> self.branches_view()[i].name
                != self.branches_view()[j].name
    }

    pub open spec fn has_branch(self, name: Seq<char>) -> bool {
        exists|i: int| 0 <= i < self.branches_view().len() && self.branches_view()[i].name == name
    }

    /// The commit the named branch points at.
    pub open spec fn branch_tip(self, name: Seq<char>) -> Seq<char>
        recommends
            self.has_branch(name),
    {
        self.branches_view()[choose|i: int|
            0 <= i < self.branches_view().len() && self.branches_view()[i].name == name].commit
    }

    /// The name the current HEAD answers to: the attached branch's name, or
    /// the detached sentinel.
    pub open spec fn spec_current_branch(self) -> Seq<char> {
        match self.head {
            Head::Attached { branch } => branch@,
            Head::Detached { .. } => "detached"@,
        }
    }

    /// A fresh ref state: HEAD attached to the default branch, no refs.
    pub fn new() -> (r: RefState)
        ensures
            r.wf(),
            r.branches_view() =~= Seq::<BranchView>::empty(),
            r.head matches Head::Attached { branch } && branch@ == "main"@,
    {
        RefState { head: Head::Attached { branch: "main".to_owned() }, branches: Vec::new() }
    }

    /// Position of the named branch, if any.
    pub fn find_branch(&self, name: &str) -> (r: Option<usize>)
        ensures
            match r {
                Some(i) => i < self.branches_view().len() && self.branches_view()[
                    i as int
                ].name == name@,
                None => !self.has_branch(name@),
            },
    {
        let key = name.to_owned();
        let mut i: usize = 0;
        while i < self.branches.len()
            invariant
                i <= self.branches_view().len(),
                key@ == name@,
                forall|j: int| 0 <= j < i ==> self.branches_view()[j].name != name@,
            decreases self.branches_view().len() - i,
        {
            if self.branches[i].name == key {
                return Some(i);
            }
            i += 1;
        }
        None
    }
}

/// The branch name HEAD answers to: the attached branch, or "detached".
pub fn get_current_branch(refs: &RefState) -> (r: String)
    ensures
        r@ == refs.spec_current_branch(),
{
    match &refs.head {
        Head::Attached { branch } => branch.clone(),
        Head::Detached { .. } => "detached".to_owned(),
    }
}

/// Attaches HEAD to the named branch, which need not exist yet.
pub fn update_head(refs: &mut RefState, branch: &str)
    ensures
        final(refs).head matches Head::Attached { branch: b } && b@ == branch@,
        final(refs).branches == old(refs).branches,
{
    refs.head = Head::Attached { branch: branch.to_owned() };
}

/// The commit the named branch points at, if the branch exists.
pub fn get_branch_commit(refs: &RefState, branch: &str) -> (r: Option<String>)
    requires
        refs.wf(),
    ensures
        match r {
            Some(c) => refs.has_branch(branch@) && c@ == refs.branch_tip(branch@),
            None => !refs.has_branch(branch@),
        },
{
    match refs.find_branch(branch) {
        Some(i) => {
            proof {
                let bv = refs.branches_view();
                let w = choose|k: int| 0 <= k < bv.len() && bv[k].name == branch@;
                assert(bv[w].name == branch@);
                assert(w == i as int);
            }
            Some(refs.branches[i].commit.clone())
        },
        None => None,
    }
}

/// Points the named branch at a commit, creating the ref if it is new.
pub fn update_branch(refs: &mut RefState, branch: &str, commit: &str)
    requires
        old(refs).wf(),
    ensures
        final(refs).wf(),
        final(refs).branches_view() == spec_set_branch(
            old(refs).branches_view(),
            branch@,
            commit@,
        ),
        final(refs).head == old(refs).head,
{
    let ghost bv0 = refs.branches_view();
    match refs.find_branch(branch) {
        Some(i) => {
            let b = Branch { name: branch.to_owned(), commit: commit.to_owned() };
            proof {
                lemma_set_branch_at(bv0, branch@, commit@, i as int);
                assert(bv0.update(i as int, b@) =~= spec_set_branch(bv0, branch@, commit@));
                assert(refs.branches@.update(i as int, b).map_values(|x: Branch| x@)
                    =~= bv0.update(i as int, b@));
                lemma_set_branch_wf(bv0, branch@, commit@);
            }
            refs.branches.set(i, b);
        },
        None => {
            let b = Branch { name: branch.to_owned(), commit: commit.to_owned() };
            proof {
                lemma_set_branch_append(bv0, branch@, commit@);
                assert(refs.branches@.push(b).map_values(|x: Branch| x@) =~= bv0.push(b@));
                assert(bv0.push(b@) =~= bv0 + seq![b@]);
                lemma_set_branch_wf(bv0, branch@, commit@);
            }
            refs.branches.push(b);
        },
    }
}

/// Removes the named branch ref; the caller has checked it exists.
pub fn delete_branch(refs: &mut RefState, i: usize)
    requires
        old(refs).wf(),
        i < old(refs).branches_view().len(),
    ensures
        final(refs).wf(),
        final(refs).branches_view() == spec_remove_branch(
            old(refs).branches_view(),
            old(refs).branches_view()[i as int].name,
        ),
        final(refs).head == old(refs).head,
{
    let ghost bv0 = refs.branches_view();
    let ghost name = bv0[i as int].name;
    proof {
        lemma_remove_branch_at(bv0, name, i as int);
        assert(refs.branches@.remove(i as int).map_values(|x: Branch| x@) =~= bv0.remove(i as int));
        lemma_remove_branch_wf(bv0, name);
    }
    let _ = refs.branches.remove(i);
}

/// Where the named branch exists, `spec_set_branch` updates it in place.
proof fn lemma_set_branch_at(bs: Seq<BranchView>, name: Seq<char>, commit: Seq<char>, i: int)
    requires
        forall|a: int, b: int| 0 <= a < b < bs.len() ==> bs[a].name != bs[b].name,
        0 <= i < bs.len(),
        bs[i].name == name,
    ensures
        spec_set_branch(bs, name, commit) == bs.update(i, BranchView { name, commit }),
    decreases bs.len(),
{
    if i == 0 {
        assert(spec_set_branch(bs, name, commit) =~= bs.update(0, BranchView { name, commit }));
    } else {
        assert(bs[0].name != name);
        assert(bs.drop_first()[i - 1] == bs[i]);
        lemma_set_branch_at(bs.drop_first(), name, commit, i - 1);
        assert(spec_set_branch(bs, name, commit) =~= bs.update(i, BranchView { name, commit }));
    }
}

/// Where the named branch does not exist, `spec_set_branch` appends it.
proof fn lemma_set_branch_append(bs: Seq<BranchView>, name: Seq<char>, commit: Seq<char>)
    requires
        forall|k: int| 0 <= k < bs.len() ==> bs[k].name != name,
    ensures
        spec_set_branch(bs, name, commit) == bs + seq![BranchView { name, commit }],
    decreases bs.len(),
{
    if bs.len() == 0 {
        assert(spec_set_branch(bs, name, commit) =~= bs + seq![BranchView { name, commit }]);
    } else {
        lemma_set_branch_append(bs.drop_first(), name, commit);
        assert(spec_set_branch(bs, name, commit) =~= bs + seq![BranchView { name, commit }]);
    }
}

/// Setting a branch keeps names pairwise distinct.
proof fn lemma_set_branch_wf(bs: Seq<BranchView>, name: Seq<char>, commit: Seq<char>)
    requires
        forall|a: int, b: int| 0 <= a < b < bs.len() ==> bs[a].name != bs[b].name,
    ensures
        forall|a: int, b: int|
            0 <= a < b < spec_set_branch(bs, name, commit).len() ==> spec_set_branch(
                bs,
                name,
                commit,
            )[a].name != spec_set_branch(bs, name, commit)[b].name,
    decreases bs.len(),
{
    if exists|i: int| 0 <= i < bs.len() && bs[i].name == name {
        let i = choose|i: int| 0 <= i < bs.len() && bs[i].name == name;
        lemma_set_branch_at(bs, name, commit, i);
        let u = bs.update(i, BranchView { name, commit });
        assert forall|a: int, b: int| 0 <= a < b < u.len() implies u[a].name != u[b].name by {
            if a != i && b != i {
                assert(bs[a].name != bs[b].name);
            } else if a == i {
                assert(bs[b].name != name) by {
                    if bs[b].name == name {
                        assert(bs[i].name == bs[b].name);
                    }
                }
            } else {
                assert(bs[a].name != name) by {
                    if bs[a].name == name {
                        if a < i {
                            assert(bs[a].name != bs[i].name);
                        } else if i < a {
                            assert(bs[i].name != bs[a].name);
                        }
                    }
                }
            }
        }
    } else {
        lemma_set_branch_append(bs, name, commit);
        let u = bs + seq![BranchView { name, commit }];
        assert forall|a: int, b: int| 0 <= a < b < u.len() implies u[a].name != u[b].name by {
            if b < bs.len() {
                assert(bs[a].name != bs[b].name);
            } else {
                assert(u[b].name == name);
                assert(bs[a].name != name);
            }
        }
    }
}

/// Where the named branch sits at `i`, `spec_remove_branch` removes it.
proof fn lemma_remove_branch_at(bs: Seq<BranchView>, name: Seq<char>, i: int)
    requires
        forall|a: int, b: int| 0 <= a < b < bs.len() ==> bs[a].name != bs[b].name,
        0 <= i < bs.len(),
        bs[i].name == name,
    ensures
        spec_remove_branch(bs, name) == bs.remove(i),
    decreases bs.len(),
{
    if i == 0 {
        assert(spec_remove_branch(bs, name) =~= bs.remove(0));
    } else {
        assert(bs[0].name != name);
        assert(bs.drop_first()[i - 1] == bs[i]);
        lemma_remove_branch_at(bs.drop_first(), name, i - 1);
        assert(spec_remove_branch(bs, name) =~= bs.remove(i));
    }
}

/// Removing a branch keeps names pairwise distinct.
proof fn lemma_remove_branch_wf(bs: Seq<BranchView>, name: Seq<char>)
    requires
        forall|a: int, b: int| 0 <= a < b < bs.len() ==> bs[a].name != bs[b].name,
    ensures
        forall|a: int, b: int|
            0 <= a < b < spec_remove_branch(bs, name).len() ==> spec_remove_branch(bs, name)[a].name
                != spec_remove_branch(bs, name)[b].name,
    decreases bs.len(),
{
    if bs.len() == 0 {
    } else if bs[0].name == name {
    } else {
        lemma_remove_branch_wf(bs.drop_first(), name);
        let u = seq![bs[0]] + spec_remove_branch(bs.drop_first(), name);
        assert(spec_remove_branch(bs, name) == u);
        assert forall|a: int, b: int| 0 <= a < b < u.len() implies u[a].name != u[b].name by {
            lemma_remove_branch_member(bs.drop_first(), name, b - 1);
            if a > 0 {
                lemma_remove_branch_member(bs.drop_first(), name, a - 1);
            }
        }
    }
}

/// Every member of the removal's result was a member before.
proof fn lemma_remove_branch_member(bs: Seq<BranchView>, name: Seq<char>, i: int)
    requires
        0 <= i < spec_remove_branch(bs, name).len(),
    ensures
        exists|j: int| 0 <= j < bs.len() && bs[j] == spec_remove_branch(bs, name)[i],
    decreases bs.len(),
{
    if bs.len() == 0 {
    } else if bs[0].name == name {
        assert(bs[i + 1] == spec_remove_branch(bs, name)[i]);
    } else {
        if i == 0 {
            assert(bs[0] == spec_remove_branch(bs, name)[0]);
        } else {
            lemma_remove_branch_member(bs.drop_first(), name, i - 1);
            let j = choose|j: int|
                0 <= j < bs.drop_first().len() && bs.drop_first()[j] == spec_remove_branch(
                    bs.drop_first(),
                    name,
                )[i - 1];
            assert(bs[j + 1] == spec_remove_branch(bs, name)[i]);
        }
    }
}

/// Reads a stored HEAD: a symbolic reference names the attached branch;
/// anything else is a detached commit. The content is trimmed first.
pub fn parse_head(content: &str) -> (r: Head)
    ensures
        ({
            let t = trim_spec(content@);
            if t.len() >= head_prefix().len() && t.subrange(0, head_prefix().len() as int)
                == head_prefix() {
                r matches Head::Attached { branch } && branch@ == t.skip(
                    head_prefix().len() as int,
                )
            } else {
                r matches Head::Detached { commit } && commit@ == t
            }
        }),
{
    proof {
        reveal_strlit("ref: refs/heads/");
    }
    let t = trim_str(content);
    let n = t.as_str().unicode_len();
    if n >= 16 {
        let front = t.as_str().substring_char(0, 16).to_owned();
        if front == "ref: refs/heads/".to_owned() {
            let branch = t.as_str().substring_char(16, n).to_owned();
            return Head::Attached { branch };
        }
    }
    proof {
        assert(head_prefix().len() == 16);
    }
    Head::Detached { commit: t }
}

/// Renders HEAD as its stored file content.
pub fn format_head(head: &Head) -> (r: String)
    ensures
        match head {
            Head::Attached { branch } => r@ == head_prefix() + branch@,
            Head::Detached { commit } => r@ == commit@,
        },
{
    match head {
        Head::Attached { branch } => "ref: refs/heads/".to_owned().concat(branch.as_str()),
        Head::Detached { commit } => commit.clone(),
    }
}

} // verus!
