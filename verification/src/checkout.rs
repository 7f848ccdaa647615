//! The working-tree reconciler's deciding half: resolves a checkout target
//! to a branch or a stored commit, repoints HEAD, and assembles the files
//! the working directory must hold afterwards. The caller then clears the
//! working directory — all but the store's own root — and writes exactly
//! these files: an unconditional, destructive replacement.

use vstd::prelude::*;
use crate::errors::GitError;
use crate::object_store::{spec_load_blob, spec_load_commit, spec_load_tree, ObjectStore};
use crate::refs::{update_head, Head, RefState};
use crate::types::{TreeEntryView, WorkFile, WorkFileView};

verus! {

/// The files a tree's entries call for: one per file entry, in order, each
/// carrying its blob's bytes; the first load failure surfaces.
pub open spec fn spec_collect_files(
    m: Map<Seq<char>, Seq<u8>>,
    entries: Seq<TreeEntryView>,
) -> Result<Seq<WorkFileView>, GitError>
    decreases entries.len(),
{
    if entries.len() == 0 {
        Ok(Seq::empty())
    } else {
        let e = entries[0];
        if e.is_file {
            match spec_load_blob(m, e.hash) {
                Err(err) => Err(err),
                Ok(bv) => match spec_collect_files(m, entries.drop_first()) {
                    Err(err) => Err(err),
                    Ok(rest) => Ok(seq![WorkFileView { path: e.name, content: bv.content }] + rest),
                },
            }
        } else {
            spec_collect_files(m, entries.drop_first())
        }
    }
}

/// The working-directory contents a commit calls for: its tree's file
/// entries, each with its blob's bytes.
pub open spec fn spec_materialize(m: Map<Seq<char>, Seq<u8>>, h: Seq<char>) -> Result<
    Seq<WorkFileView>,
    GitError,
> {
    match spec_load_commit(m, h) {
        Err(e) => Err(e),
        Ok(cv) => match spec_load_tree(m, cv.tree) {
            Err(e) => Err(e),
            Ok(tv) => spec_collect_files(m, tv.entries),
        },
    }
}

/// Assembles the files the given commit's tree calls for, loading the
/// commit, its tree, and every file entry's blob.
#[verifier::loop_isolation(false)]
pub fn materialize(store: &ObjectStore, commit_hash: &str) -> (r: Result<Vec<WorkFile>, GitError>)
    requires
        store.wf(),
    ensures
        match r {
            Ok(fs) => spec_materialize(store@, commit_hash@) == Ok::<Seq<WorkFileView>, GitError>(
                fs@.map_values(|f: WorkFile| f@),
            ),
            Err(e) => spec_materialize(store@, commit_hash@) == Err::<Seq<WorkFileView>, GitError>(
                e,
            ),
        },
{
    let c = match store.load_commit(commit_hash) {
        Ok(c) => c,
        Err(e) => {
            return Err(e);
        },
    };
    let t = match store.load_tree(c.tree.as_str()) {
        Ok(t) => t,
        Err(e) => {
            return Err(e);
        },
    };
    let ghost entries_v = t@.entries;
    let mut out: Vec<WorkFile> = Vec::new();
    let mut i: usize = 0;
    proof {
        assert(entries_v.skip(0) =~= entries_v);
        let c0 = spec_collect_files(store@, entries_v);
        if c0 is Ok {
            assert(Seq::<WorkFileView>::empty() + c0->Ok_0 =~= c0->Ok_0);
        }
        assert(out@.map_values(|f: WorkFile| f@) =~= Seq::<WorkFileView>::empty());
    }
    while i < t.entries.len()
        invariant
            i <= entries_v.len(),
            entries_v == t@.entries,
            match spec_collect_files(store@, entries_v.skip(i as int)) {
                Ok(rest) => spec_collect_files(store@, entries_v) == Ok::<
                    Seq<WorkFileView>,
                    GitError,
                >(out@.map_values(|f: WorkFile| f@) + rest),
                Err(e) => spec_collect_files(store@, entries_v) == Err::<
                    Seq<WorkFileView>,
                    GitError,
                >(e),
            },
        decreases entries_v.len() - i,
    {
        let e = &t.entries[i];
        proof {
            assert(entries_v.skip(i as int)[0] == entries_v[i as int]);
            assert(entries_v.skip(i as int).drop_first() =~= entries_v.skip(i as int + 1));
        }
        if e.is_file {
            match store.load_blob(e.hash.as_str()) {
                Ok(b) => {
                    let f = WorkFile { path: e.name.clone(), content: b.content };
                    proof {
                        let acc = out@.map_values(|x: WorkFile| x@);
                        assert(out@.push(f).map_values(|x: WorkFile| x@) =~= acc.push(f@));
                        assert(acc.push(f@) =~= acc + seq![f@]);
                        let sub = spec_collect_files(store@, entries_v.skip(i as int + 1));
                        if sub is Ok {
                            assert(acc + (seq![f@] + sub->Ok_0) =~= (acc + seq![f@]) + sub->Ok_0);
                        }
                    }
                    out.push(f);
                },
                Err(err) => {
                    return Err(err);
                },
            }
        }
        i += 1;
    }
    proof {
        assert(entries_v.skip(entries_v.len() as int) =~= Seq::<TreeEntryView>::empty());
        let acc = out@.map_values(|f: WorkFile| f@);
        assert(acc + Seq::<WorkFileView>::empty() =~= acc);
    }
    Ok(out)
}

/// What a checkout resolved its target to.
#[derive(Debug, Clone)]
pub enum CheckoutOutcome {
    BranchSwitch { name: String },
    DetachedTo { hash: String },
}

/// Checks a target out: an existing branch attaches HEAD and materializes
/// its tip; a stored object hash detaches HEAD at it and materializes it;
/// anything else fails with `RefNotFound`. HEAD moves before the files are
/// assembled, as the stored HEAD does on disk, so a failed materialization
/// leaves HEAD already switched.
pub fn checkout(refs: &mut RefState, store: &ObjectStore, target: &String) -> (r: Result<
    (CheckoutOutcome, Vec<WorkFile>),
    GitError,
>)
    requires
        old(refs).wf(),
        store.wf(),
    ensures
        final(refs).wf(),
        final(refs).branches == old(refs).branches,
        if old(refs).has_branch(target@) {
            ({
                &&& final(refs).head matches Head::Attached { branch } && branch@ == target@
                &&& ({
                    let tip = old(refs).branch_tip(target@);
                    match r {
                        Ok((outcome, files)) => outcome matches CheckoutOutcome::BranchSwitch {
                            name,
                        } && name@ == target@ && spec_materialize(store@, tip) == Ok::<
                            Seq<WorkFileView>,
                            GitError,
                        >(files@.map_values(|f: WorkFile| f@)),
                        Err(e) => spec_materialize(store@, tip) == Err::<
                            Seq<WorkFileView>,
                            GitError,
                        >(e),
                    }
                })
            })
        } else if store@.contains_key(target@) {
            ({
                &&& final(refs).head matches Head::Detached { commit } && commit@ == target@
                &&& match r {
                    Ok((outcome, files)) => outcome matches CheckoutOutcome::DetachedTo { hash }
                        && hash@ == target@ && spec_materialize(store@, target@) == Ok::<
                        Seq<WorkFileView>,
                        GitError,
                    >(files@.map_values(|f: WorkFile| f@)),
                    Err(e) => spec_materialize(store@, target@) == Err::<
                        Seq<WorkFileView>,
                        GitError,
                    >(e),
                }
            })
        } else {
            r == Err::<(CheckoutOutcome, Vec<WorkFile>), GitError>(GitError::RefNotFound)
                && *final(refs) == *old(refs)
        },
{
    match refs.find_branch(target.as_str()) {
        Some(i) => {
            let tip = refs.branches[i].commit.clone();
            proof {
                let bv = refs.branches_view();
                let w = choose|k: int| 0 <= k < bv.len() && bv[k].name == target@;
                assert(bv[w].name == target@);
                assert(w == i as int);
            }
            update_head(refs, target.as_str());
            match materialize(store, tip.as_str()) {
                Ok(files) => Ok((CheckoutOutcome::BranchSwitch { name: target.clone() }, files)),
                Err(e) => Err(e),
            }
        },
        None => {
            if store.object_exists(target.as_str()) {
                refs.head = Head::Detached { commit: target.clone() };
                match materialize(store, target.as_str()) {
                    Ok(files) => Ok(
                        (CheckoutOutcome::DetachedTo { hash: target.clone() }, files),
                    ),
                    Err(e) => Err(e),
                }
            } else {
                Err(GitError::RefNotFound)
            }
        },
    }
}

/// Materialization mirrors the tree exactly: where every entry is a file,
/// the assembled plan holds one file per entry, in order, under the
/// entry's name and with its blob's bytes — and nothing else.
pub proof fn lemma_materialized_files_match_tree(
    m: Map<Seq<char>, Seq<u8>>,
    entries: Seq<TreeEntryView>,
    fs: Seq<WorkFileView>,
)
    requires
        spec_collect_files(m, entries) == Ok::<Seq<WorkFileView>, GitError>(fs),
        forall|i: int| 0 <= i < entries.len() ==> (#[trigger] entries[i]).is_file,
    ensures
        fs.len() == entries.len(),
        forall|i: int|
            0 <= i < entries.len() ==> (#[trigger] fs[i]).path == entries[i].name && (
            spec_load_blob(m, entries[i].hash) matches Ok(bv) && fs[i].content == bv.content),
    decreases entries.len(),
{
    if entries.len() == 0 {
    } else {
        match spec_load_blob(m, entries[0].hash) {
            Err(_) => {
                assert(false);
            },
            Ok(bv) => {
                match spec_collect_files(m, entries.drop_first()) {
                    Err(_) => {
                        assert(false);
                    },
                    Ok(rest) => {
                        assert(forall|i: int|
                            0 <= i < entries.drop_first().len() ==> (#[trigger] entries.drop_first()[
                                i
                            ]).is_file) by {
                            assert(forall|i: int|
                                0 <= i < entries.drop_first().len() ==> entries.drop_first()[i]
                                    == entries[i + 1]);
                        }
                        lemma_materialized_files_match_tree(m, entries.drop_first(), rest);
                        let head = WorkFileView { path: entries[0].name, content: bv.content };
                        assert(fs == seq![head] + rest);
                        assert forall|i: int| 0 <= i < entries.len() implies (#[trigger] fs[i]).path
                            == entries[i].name && (spec_load_blob(m, entries[i].hash) matches Ok(b2)
                            && fs[i].content == b2.content) by {
                            if i == 0 {
                                assert(fs[0] == head);
                            } else {
                                assert(fs[i] == rest[i - 1]);
                                assert(entries[i] == entries.drop_first()[i - 1]);
                            }
                        }
                    },
                }
            },
        }
    }
}

} // verus!
