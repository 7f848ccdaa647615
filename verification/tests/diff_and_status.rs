use crab_git::add::add_file_to_index;
use crab_git::commit::commit;
use crab_git::diff::{diff, line_diff, show_file_diff, FileDiff};
use crab_git::lines::split_lines;
use crab_git::object_store::ObjectStore;
use crab_git::refs::RefState;
use crab_git::status::status;
use crab_git::types::{Repository, WorkFile};
use crab_git::utils::load_index;

fn fresh_store() -> ObjectStore {
    let repo = Repository {
        git_dir: "/work/.crab_git".to_string(),
        work_dir: "/work".to_string(),
    };
    ObjectStore::new(&repo)
}

fn strings(v: &[&str]) -> Vec<String> {
    v.iter().map(|s| s.to_string()).collect()
}

#[test]
fn split_lines_matches_line_reading() {
    assert_eq!(split_lines("a\nb\nc\n"), strings(&["a", "b", "c"]));
    assert_eq!(split_lines("a\nb"), strings(&["a", "b"]));
    assert_eq!(split_lines(""), strings(&[]));
    assert_eq!(split_lines("\n"), strings(&[""]));
    assert_eq!(split_lines("a\n\nb"), strings(&["a", "", "b"]));
}

#[test]
fn diff_without_modification_shows_nothing() {
    let mut store = fresh_store();
    let mut index = load_index(None).unwrap();
    add_file_to_index(&mut index, &mut store, b"a\nb\nc\n", "f.txt").unwrap();
    let current = b"a\nb\nc\n".to_vec();
    let d = show_file_diff(&store, &index, &"f.txt".to_string(), Some(&current)).unwrap();
    assert!(matches!(d, FileDiff::Unchanged));
}

#[test]
fn diff_of_a_deleted_file_removes_every_line() {
    let mut store = fresh_store();
    let mut index = load_index(None).unwrap();
    add_file_to_index(&mut index, &mut store, b"one\ntwo\nthree\n", "gone.txt").unwrap();
    let d = show_file_diff(&store, &index, &"gone.txt".to_string(), None).unwrap();
    match d {
        FileDiff::Deleted { removed } => {
            assert_eq!(removed, strings(&["one", "two", "three"]));
        },
        _ => panic!("expected a deleted-file diff"),
    }
}

#[test]
fn diff_shows_only_the_changed_middle() {
    let mut store = fresh_store();
    let mut refs = RefState::new();
    let mut index = load_index(None).unwrap();
    add_file_to_index(&mut index, &mut store, b"a\nb\nc\n", "README.md").unwrap();
    commit(&mut refs, &index, &mut store, "first".to_string(), None, 0).unwrap();
    let modified = b"a\nX\nc\n".to_vec();
    let d = show_file_diff(&store, &index, &"README.md".to_string(), Some(&modified)).unwrap();
    match d {
        FileDiff::Changed { removed, added } => {
            assert_eq!(removed, strings(&["b"]));
            assert_eq!(added, strings(&["X"]));
        },
        _ => panic!("expected a changed-file diff"),
    }
}

#[test]
fn diff_with_zero_overlap_never_double_counts() {
    let staged = strings(&["a", "b", "c"]);
    let current = strings(&["x", "y", "z"]);
    let (removed, added) = line_diff(&staged, &current);
    assert_eq!(removed, staged);
    assert_eq!(added, current);
}

#[test]
fn diff_anchors_stop_at_the_first_mismatch() {
    let staged = strings(&["same", "old1", "old2", "tail"]);
    let current = strings(&["same", "new", "tail"]);
    let (removed, added) = line_diff(&staged, &current);
    assert_eq!(removed, strings(&["old1", "old2"]));
    assert_eq!(added, strings(&["new"]));
}

#[test]
fn diff_of_an_untracked_path_says_so() {
    let mut store = fresh_store();
    let mut index = load_index(None).unwrap();
    add_file_to_index(&mut index, &mut store, b"x", "known.txt").unwrap();
    let working = vec![WorkFile { path: "other.txt".to_string(), content: b"y".to_vec() }];
    let results = diff(
        &store,
        &index,
        &vec!["other.txt".to_string()],
        &working,
    )
    .unwrap();
    assert_eq!(results.len(), 1);
    assert_eq!(results[0].0, "other.txt");
    assert!(matches!(results[0].1, FileDiff::NotTracked));
}

#[test]
fn diff_with_no_paths_walks_the_whole_index() {
    let mut store = fresh_store();
    let mut index = load_index(None).unwrap();
    add_file_to_index(&mut index, &mut store, b"a\n", "a.txt").unwrap();
    add_file_to_index(&mut index, &mut store, b"b\n", "b.txt").unwrap();
    let working = vec![
        WorkFile { path: "a.txt".to_string(), content: b"a\n".to_vec() },
        WorkFile { path: "b.txt".to_string(), content: b"changed\n".to_vec() },
    ];
    let results = diff(&store, &index, &Vec::new(), &working).unwrap();
    assert_eq!(results.len(), 2);
    assert_eq!(results[0].0, "a.txt");
    assert!(matches!(results[0].1, FileDiff::Unchanged));
    assert_eq!(results[1].0, "b.txt");
    assert!(matches!(results[1].1, FileDiff::Changed { .. }));
}

#[test]
fn status_sorts_paths_into_their_buckets() {
    let mut store = fresh_store();
    let refs = RefState::new();
    let mut index = load_index(None).unwrap();
    add_file_to_index(&mut index, &mut store, b"clean", "clean.txt").unwrap();
    add_file_to_index(&mut index, &mut store, b"old", "dirty.txt").unwrap();
    let working = vec![
        WorkFile { path: "clean.txt".to_string(), content: b"clean".to_vec() },
        WorkFile { path: "dirty.txt".to_string(), content: b"new".to_vec() },
        WorkFile { path: "stray.txt".to_string(), content: b"???".to_vec() },
    ];
    let report = status(&refs, &index, &working);
    assert_eq!(report.branch, "main");
    assert_eq!(report.staged, strings(&["clean.txt", "dirty.txt"]));
    assert_eq!(report.modified, strings(&["dirty.txt"]));
    assert_eq!(report.untracked, strings(&["stray.txt"]));
}
