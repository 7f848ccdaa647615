//! The history walker: follows parent links from the current branch's tip,
//! newest first, up to an optional count limit. Each invocation re-walks
//! from the tip.

use vstd::prelude::*;
use crate::errors::GitError;
use crate::object_store::{spec_load_commit, ObjectStore};
use crate::refs::{get_branch_commit, get_current_branch, RefState};
use crate::types::{opt_str_view, Commit, CommitView};

verus! {

/// The commits a walk yields: nothing from an absent tip, else the commit
/// under each hash followed by its ancestors, at most `fuel` of them, with
/// the first load failure surfacing as the walk's failure.
pub open spec fn spec_log(
    m: Map<Seq<char>, Seq<u8>>,
    start: Option<Seq<char>>,
    fuel: nat,
) -> Result<Seq<CommitView>, GitError>
    decreases fuel,
{
    match start {
        None => Ok(Seq::empty()),
        Some(h) => if fuel == 0 {
            Ok(Seq::empty())
        } else {
            match spec_load_commit(m, h) {
                Err(e) => Err(e),
                Ok(cv) => match spec_log(m, cv.parent, (fuel - 1) as nat) {
                    Err(e) => Err(e),
                    Ok(rest) => Ok(seq![cv] + rest),
                },
            }
        },
    }
}

/// Walks the history from the current branch's tip, newest first, loading
/// each commit and following its parent, up to `max_count` commits.
#[verifier::loop_isolation(false)]
pub fn log(refs: &RefState, store: &ObjectStore, max_count: Option<usize>) -> (r: Result<
    Vec<Commit>,
    GitError,
>)
    requires
        refs.wf(),
        store.wf(),
    ensures
        ({
            let start = if refs.has_branch(refs.spec_current_branch()) {
                Some(refs.branch_tip(refs.spec_current_branch()))
            } else {
                None
            };
            let fuel = (match max_count {
                Some(m) => m,
                None => usize::MAX,
            }) as nat;
            match r {
                Ok(cs) => spec_log(store@, start, fuel) == Ok::<Seq<CommitView>, GitError>(
                    cs@.map_values(|c: Commit| c@),
                ),
                Err(e) => spec_log(store@, start, fuel) == Err::<Seq<CommitView>, GitError>(e),
            }
        }),
{
    let cur = get_current_branch(refs);
    let mut current: Option<String> = get_branch_commit(refs, cur.as_str());
    let ghost start = opt_str_view(current);
    let max: usize = match max_count {
        Some(m) => m,
        None => usize::MAX,
    };
    let mut out: Vec<Commit> = Vec::new();
    let mut count: usize = 0;
    proof {
        let l0 = spec_log(store@, start, max as nat);
        if l0 is Ok {
            assert(Seq::<CommitView>::empty() + l0->Ok_0 =~= l0->Ok_0);
        }
        assert(out@.map_values(|c: Commit| c@) =~= Seq::<CommitView>::empty());
    }
    loop
        invariant
            count <= max,
            match spec_log(store@, opt_str_view(current), (max - count) as nat) {
                Ok(rest) => spec_log(store@, start, max as nat) == Ok::<Seq<CommitView>, GitError>(
                    out@.map_values(|c: Commit| c@) + rest,
                ),
                Err(e) => spec_log(store@, start, max as nat) == Err::<Seq<CommitView>, GitError>(
                    e,
                ),
            },
        decreases max - count,
    {
        if count >= max {
            break;
        }
        let h = match &current {
            Some(h) => h.clone(),
            None => {
                break;
            },
        };
        match store.load_commit(h.as_str()) {
            Ok(c) => {
                let parent = match &c.parent {
                    Some(p) => Some(p.clone()),
                    None => None,
                };
                proof {
                    let acc = out@.map_values(|x: Commit| x@);
                    assert(out@.push(c).map_values(|x: Commit| x@) =~= acc.push(c@));
                    assert(acc.push(c@) =~= acc + seq![c@]);
                    let sub = spec_log(store@, c@.parent, (max - count - 1) as nat);
                    if sub is Ok {
                        assert(acc + (seq![c@] + sub->Ok_0) =~= (acc + seq![c@]) + sub->Ok_0);
                    }
                    assert(opt_str_view(parent) == c@.parent);
                }
                out.push(c);
                current = parent;
                count += 1;
            },
            Err(e) => {
                return Err(e);
            },
        }
    }
    Ok(out)
}

} // verus!
