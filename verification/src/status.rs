//! Working-tree status: the staged paths, those whose working copy has
//! drifted from the staged digest, and the scanned files nothing has
//! staged yet.

use vstd::prelude::*;
use crate::diff::spec_work_lookup;
use crate::hashing::sha256_hex;
use crate::object_store::ObjectStore;
use crate::refs::{get_current_branch, RefState};
use crate::types::{Index, IndexEntryView, WorkFile, WorkFileView};

verus! {

/// What a status pass reports.
#[derive(Debug, Clone)]
pub struct StatusReport {
    pub branch: String,
    pub staged: Vec<String>,
    pub modified: Vec<String>,
    pub untracked: Vec<String>,
}

/// The staged paths whose working copy exists but hashes differently, in
/// staging order.
pub open spec fn spec_modified(ix: Seq<IndexEntryView>, ws: Seq<WorkFileView>) -> Seq<Seq<char>>
    decreases ix.len(),
{
    if ix.len() == 0 {
        Seq::empty()
    } else {
        let rest = spec_modified(ix.drop_first(), ws);
        match spec_work_lookup(ws, ix[0].path) {
            Some(c) => if sha256_hex(c) != ix[0].hash {
                seq![ix[0].path] + rest
            } else {
                rest
            },
            None => rest,
        }
    }
}

/// The scanned paths the index does not know, in scan order.
pub open spec fn spec_untracked(ix: Index, ws: Seq<WorkFileView>) -> Seq<Seq<char>>
    decreases ws.len(),
{
    if ws.len() == 0 {
        Seq::empty()
    } else {
        let rest = spec_untracked(ix, ws.drop_first());
        if ix.has_path(ws[0].path) {
            rest
        } else {
            seq![ws[0].path] + rest
        }
    }
}

/// Reports the current branch, every staged path, the staged paths whose
/// working copy has changed, and the scanned files not staged at all.
#[verifier::loop_isolation(false)]
pub fn status(refs: &RefState, index: &Index, working: &Vec<WorkFile>) -> (r: StatusReport)
    requires
        index.wf(),
    ensures
        r.branch@ == refs.spec_current_branch(),
        r.staged@.map_values(|p: String| p@) == index@.map_values(|e: IndexEntryView| e.path),
        r.modified@.map_values(|p: String| p@) == spec_modified(
            index@,
            working@.map_values(|f: WorkFile| f@),
        ),
        r.untracked@.map_values(|p: String| p@) == spec_untracked(
            *index,
            working@.map_values(|f: WorkFile| f@),
        ),
{
    let branch = get_current_branch(refs);
    let ghost ixv = index@;
    let ghost ws = working@.map_values(|f: WorkFile| f@);
    let mut staged: Vec<String> = Vec::new();
    let mut modified: Vec<String> = Vec::new();
    let mut i: usize = 0;
    proof {
        assert(ixv.skip(0) =~= ixv);
        assert(staged@.map_values(|p: String| p@) =~= Seq::<Seq<char>>::empty());
        assert(modified@.map_values(|p: String| p@) =~= Seq::<Seq<char>>::empty());
        assert(Seq::<Seq<char>>::empty() + spec_modified(ixv, ws) =~= spec_modified(ixv, ws));
    }
    while i < index.entries.len()
        invariant
            i <= ixv.len(),
            ixv == index@,
            ws == working@.map_values(|f: WorkFile| f@),
            staged@.map_values(|p: String| p@) =~= ixv.map_values(
                |e: IndexEntryView| e.path,
            ).take(i as int),
            spec_modified(ixv, ws) == modified@.map_values(|p: String| p@) + spec_modified(
                ixv.skip(i as int),
                ws,
            ),
        decreases ixv.len() - i,
    {
        let entry = &index.entries[i];
        proof {
            assert(ixv.skip(i as int)[0] == ixv[i as int]);
            assert(ixv.skip(i as int).drop_first() =~= ixv.skip(i as int + 1));
        }
        let ghost sacc = staged@.map_values(|p: String| p@);
        staged.push(entry.path.clone());
        proof {
            let full = ixv.map_values(|e: IndexEntryView| e.path);
            assert(staged@.map_values(|p: String| p@) =~= sacc.push(full[i as int]));
            assert(sacc.push(full[i as int]) =~= full.take(i as int + 1));
        }
        match crate::diff::work_lookup(working, &entry.path) {
            Some(w) => {
                let h = ObjectStore::hash_content(working[w].content.as_slice());
                if h != entry.hash {
                    let ghost macc = modified@.map_values(|p: String| p@);
                    modified.push(entry.path.clone());
                    proof {
                        assert(modified@.map_values(|p: String| p@) =~= macc.push(
                            ixv[i as int].path,
                        ));
                        assert(macc.push(ixv[i as int].path) =~= macc + seq![ixv[i as int].path]);
                        assert((macc + seq![ixv[i as int].path]) + spec_modified(
                            ixv.skip(i as int + 1),
                            ws,
                        ) =~= macc + (seq![ixv[i as int].path] + spec_modified(
                            ixv.skip(i as int + 1),
                            ws,
                        )));
                    }
                }
            },
            None => {
            },
        }
        i += 1;
    }
    proof {
        let full = ixv.map_values(|e: IndexEntryView| e.path);
        assert(full.take(full.len() as int) =~= full);
        assert(ixv.skip(ixv.len() as int) =~= Seq::<IndexEntryView>::empty());
        let macc = modified@.map_values(|p: String| p@);
        assert(macc + Seq::<Seq<char>>::empty() =~= macc);
    }
    let mut untracked: Vec<String> = Vec::new();
    let mut j: usize = 0;
    proof {
        assert(ws.skip(0) =~= ws);
        assert(untracked@.map_values(|p: String| p@) =~= Seq::<Seq<char>>::empty());
        assert(Seq::<Seq<char>>::empty() + spec_untracked(*index, ws) =~= spec_untracked(
            *index,
            ws,
        ));
    }
    while j < working.len()
        invariant
            j <= ws.len(),
            ws == working@.map_values(|f: WorkFile| f@),
            spec_untracked(*index, ws) == untracked@.map_values(|p: String| p@) + spec_untracked(
                *index,
                ws.skip(j as int),
            ),
        decreases ws.len() - j,
    {
        let wf = &working[j];
        proof {
            assert(ws.skip(j as int)[0] == ws[j as int]);
            assert(ws.skip(j as int).drop_first() =~= ws.skip(j as int + 1));
        }
        match index.find(&wf.path) {
            Some(_) => {
            },
            None => {
                let ghost uacc = untracked@.map_values(|p: String| p@);
                untracked.push(wf.path.clone());
                proof {
                    assert(untracked@.map_values(|p: String| p@) =~= uacc.push(ws[j as int].path));
                    assert(uacc.push(ws[j as int].path) =~= uacc + seq![ws[j as int].path]);
                    assert((uacc + seq![ws[j as int].path]) + spec_untracked(
                        *index,
                        ws.skip(j as int + 1),
                    ) =~= uacc + (seq![ws[j as int].path] + spec_untracked(
                        *index,
                        ws.skip(j as int + 1),
                    )));
                }
            },
        }
        j += 1;
    }
    proof {
        assert(ws.skip(ws.len() as int) =~= Seq::<WorkFileView>::empty());
        let uacc = untracked@.map_values(|p: String| p@);
        assert(uacc + Seq::<Seq<char>>::empty() =~= uacc);
    }
    StatusReport { branch, staged, modified, untracked }
}

} // verus!
