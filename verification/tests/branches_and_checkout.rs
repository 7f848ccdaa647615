use crab_git::add::add_file_to_index;
use crab_git::branch::{branch, BranchOutcome};
use crab_git::checkout::{checkout, materialize, CheckoutOutcome};
use crab_git::commit::commit;
use crab_git::errors::GitError;
use crab_git::log::log;
use crab_git::object_store::ObjectStore;
use crab_git::refs::{get_branch_commit, get_current_branch, Head, RefState};
use crab_git::types::Repository;
use crab_git::utils::load_index;

fn fresh_store() -> ObjectStore {
    let repo = Repository {
        git_dir: "/work/.crab_git".to_string(),
        work_dir: "/work".to_string(),
    };
    ObjectStore::new(&repo)
}

fn one_commit(store: &mut ObjectStore, refs: &mut RefState) -> String {
    let mut index = load_index(None).unwrap();
    add_file_to_index(&mut index, store, b"a\nb\nc\n", "README.md").unwrap();
    commit(refs, &index, store, "first".to_string(), None, 10).unwrap()
}

#[test]
fn branch_creation_before_any_commit_is_refused() {
    let mut refs = RefState::new();
    let r = branch(&mut refs, Some("feature".to_string()), false);
    assert!(matches!(r, Err(GitError::NoCommitsYet)));
    assert_eq!(refs.branches.len(), 0);
}

#[test]
fn branch_creation_points_at_the_current_tip() {
    let mut store = fresh_store();
    let mut refs = RefState::new();
    let cid = one_commit(&mut store, &mut refs);
    let r = branch(&mut refs, Some("feature".to_string()), false).unwrap();
    assert!(matches!(r, BranchOutcome::Created { .. }));
    assert_eq!(refs.branches.len(), 2);
    assert_eq!(get_branch_commit(&refs, "feature"), Some(cid));
}

#[test]
fn deleting_a_missing_branch_is_refused() {
    let mut refs = RefState::new();
    let r = branch(&mut refs, Some("ghost".to_string()), true);
    assert!(matches!(r, Err(GitError::BranchNotFound)));
}

#[test]
fn deleting_a_branch_removes_its_ref() {
    let mut store = fresh_store();
    let mut refs = RefState::new();
    one_commit(&mut store, &mut refs);
    branch(&mut refs, Some("feature".to_string()), false).unwrap();
    let r = branch(&mut refs, Some("feature".to_string()), true).unwrap();
    assert!(matches!(r, BranchOutcome::Deleted { .. }));
    assert_eq!(refs.branches.len(), 1);
    assert_eq!(get_branch_commit(&refs, "feature"), None);
}

#[test]
fn listing_marks_the_current_branch() {
    let mut store = fresh_store();
    let mut refs = RefState::new();
    one_commit(&mut store, &mut refs);
    branch(&mut refs, Some("feature".to_string()), false).unwrap();
    let r = branch(&mut refs, None, false).unwrap();
    match r {
        BranchOutcome::Listing { branches } => {
            assert_eq!(branches.len(), 2);
            assert_eq!(branches[0], ("main".to_string(), true));
            assert_eq!(branches[1], ("feature".to_string(), false));
        },
        _ => panic!("expected a listing"),
    }
}

#[test]
fn checkout_materializes_the_committed_tree() {
    let mut store = fresh_store();
    let mut refs = RefState::new();
    one_commit(&mut store, &mut refs);
    let (outcome, files) = checkout(&mut refs, &store, &"main".to_string()).unwrap();
    assert!(matches!(outcome, CheckoutOutcome::BranchSwitch { .. }));
    assert_eq!(files.len(), 1);
    assert_eq!(files[0].path, "README.md");
    assert_eq!(files[0].content, b"a\nb\nc\n".to_vec());
}

#[test]
fn checkout_of_a_commit_hash_detaches_head() {
    let mut store = fresh_store();
    let mut refs = RefState::new();
    let cid = one_commit(&mut store, &mut refs);
    let (outcome, files) = checkout(&mut refs, &store, &cid).unwrap();
    match outcome {
        CheckoutOutcome::DetachedTo { hash } => assert_eq!(hash, cid),
        _ => panic!("expected a detached checkout"),
    }
    assert_eq!(files.len(), 1);
    assert_eq!(get_current_branch(&refs), "detached");
}

#[test]
fn checkout_of_an_unknown_target_is_refused() {
    let mut store = fresh_store();
    let mut refs = RefState::new();
    one_commit(&mut store, &mut refs);
    let r = checkout(&mut refs, &store, &"no-such-thing".to_string());
    assert!(matches!(r, Err(GitError::RefNotFound)));
    assert!(matches!(&refs.head, Head::Attached { branch } if branch == "main"));
}

#[test]
fn checkout_round_trips_between_branches() {
    let mut store = fresh_store();
    let mut refs = RefState::new();
    one_commit(&mut store, &mut refs);
    branch(&mut refs, Some("feature".to_string()), false).unwrap();
    let (_, files_before) = checkout(&mut refs, &store, &"feature".to_string()).unwrap();
    assert_eq!(get_current_branch(&refs), "feature");
    let (_, files_after) = checkout(&mut refs, &store, &"main".to_string()).unwrap();
    assert_eq!(get_current_branch(&refs), "main");
    assert_eq!(files_before.len(), files_after.len());
    assert_eq!(files_before[0].path, files_after[0].path);
    assert_eq!(files_before[0].content, files_after[0].content);
}

#[test]
fn materialize_of_a_missing_commit_fails() {
    let store = fresh_store();
    let r = materialize(&store, "0123");
    assert!(matches!(r, Err(GitError::ObjectNotFound)));
}

#[test]
fn log_walks_newest_first() {
    let mut store = fresh_store();
    let mut refs = RefState::new();
    let mut index = load_index(None).unwrap();
    add_file_to_index(&mut index, &mut store, b"v1", "f").unwrap();
    let c1 = commit(&mut refs, &index, &mut store, "one".to_string(), None, 1).unwrap();
    add_file_to_index(&mut index, &mut store, b"v2", "f").unwrap();
    let c2 = commit(&mut refs, &index, &mut store, "two".to_string(), None, 2).unwrap();

    let all = log(&refs, &store, None).unwrap();
    assert_eq!(all.len(), 2);
    assert_eq!(all[0].hash, c2);
    assert_eq!(all[0].message, "two");
    assert_eq!(all[1].hash, c1);
    assert_eq!(all[1].message, "one");

    let limited = log(&refs, &store, Some(1)).unwrap();
    assert_eq!(limited.len(), 1);
    assert_eq!(limited[0].hash, c2);
}

#[test]
fn log_of_an_empty_history_is_empty() {
    let store = fresh_store();
    let refs = RefState::new();
    assert_eq!(log(&refs, &store, None).unwrap().len(), 0);
}
