use crab_git::add::add_file_to_index;
use crab_git::commit::commit;
use crab_git::errors::GitError;
use crab_git::object_store::ObjectStore;
use crab_git::refs::RefState;
use crab_git::types::{Repository, WorkFile};
use crab_git::utils::{load_index, save_index};

fn fresh_store() -> ObjectStore {
    let repo = Repository {
        git_dir: "/work/.crab_git".to_string(),
        work_dir: "/work".to_string(),
    };
    ObjectStore::new(&repo)
}

#[test]
fn store_and_load_blob_round_trips() {
    let mut store = fresh_store();
    let content = b"file body\n".to_vec();
    let hash = store.store_blob(&content).unwrap();
    let blob = store.load_blob(&hash).unwrap();
    assert_eq!(blob.hash, hash);
    assert_eq!(blob.content, content);
}

#[test]
fn store_paths_follow_the_digest_split() {
    let repo = Repository {
        git_dir: "/r/.crab_git".to_string(),
        work_dir: "/r".to_string(),
    };
    let store = ObjectStore::new(&repo);
    assert_eq!(store.objects_dir, "/r/.crab_git/objects");
    assert_eq!(store.init(), "/r/.crab_git/objects");
    let (dir, file) = ObjectStore::object_rel_path("ab12cd");
    assert_eq!(dir, "ab");
    assert_eq!(file, "12cd");
}

#[test]
fn load_of_a_missing_object_fails() {
    let store = fresh_store();
    assert!(matches!(
        store.load_blob("0000000000000000000000000000000000000000000000000000000000000000"),
        Err(GitError::ObjectNotFound)
    ));
    assert!(!store.object_exists("0000"));
}

#[test]
fn load_of_corrupt_bytes_fails() {
    let mut store = fresh_store();
    store.insert_raw("feed".to_string(), b"not compressed at all".to_vec());
    assert!(store.object_exists("feed"));
    assert!(matches!(store.load_blob("feed"), Err(GitError::MalformedObject)));
}

#[test]
fn stored_objects_replay_through_a_second_store() {
    let mut first = fresh_store();
    let hash = first.store_blob(b"replayed content").unwrap();
    let mut second = fresh_store();
    for o in first.objects().iter() {
        second.insert_raw(o.hash.clone(), o.data.clone());
    }
    assert_eq!(second.load_blob(&hash).unwrap().content, b"replayed content".to_vec());
}

#[test]
fn staging_twice_leaves_the_index_identical() {
    let mut store = fresh_store();
    let mut index = load_index(None).unwrap();
    add_file_to_index(&mut index, &mut store, b"unchanged", "a.txt").unwrap();
    let first = save_index(&index);
    add_file_to_index(&mut index, &mut store, b"unchanged", "a.txt").unwrap();
    let second = save_index(&index);
    assert_eq!(first, second);
    assert_eq!(index.entries.len(), 1);
}

#[test]
fn restaging_changed_content_overwrites_the_entry() {
    let mut store = fresh_store();
    let mut index = load_index(None).unwrap();
    let h1 = add_file_to_index(&mut index, &mut store, b"one", "a.txt").unwrap();
    let h2 = add_file_to_index(&mut index, &mut store, b"two", "a.txt").unwrap();
    assert_ne!(h1, h2);
    assert_eq!(index.entries.len(), 1);
    assert_eq!(index.entries[0].hash, h2);
    assert_eq!(index.entries[0].mode, "100644");
    assert_eq!(index.entries[0].path, "a.txt");
}

#[test]
fn add_stages_a_whole_scan() {
    let mut store = fresh_store();
    let mut index = load_index(None).unwrap();
    let files = vec![
        WorkFile { path: "a.txt".to_string(), content: b"a".to_vec() },
        WorkFile { path: "dir/b.txt".to_string(), content: b"b".to_vec() },
    ];
    crab_git::add::add(&mut index, &mut store, &files).unwrap();
    assert_eq!(index.entries.len(), 2);
    assert_eq!(index.entries[0].path, "a.txt");
    assert_eq!(index.entries[1].path, "dir/b.txt");
    assert!(store.object_exists(&index.entries[0].hash));
    assert!(store.object_exists(&index.entries[1].hash));
}

#[test]
fn index_file_round_trips() {
    let mut store = fresh_store();
    let mut index = load_index(None).unwrap();
    add_file_to_index(&mut index, &mut store, b"x", "x.txt").unwrap();
    let bytes = save_index(&index);
    let back = load_index(Some(&bytes)).unwrap();
    assert_eq!(back.entries.len(), 1);
    assert_eq!(back.entries[0].path, "x.txt");
    assert_eq!(back.entries[0].hash, index.entries[0].hash);
}

#[test]
fn commit_with_empty_index_is_refused() {
    let mut store = fresh_store();
    let mut refs = RefState::new();
    let index = load_index(None).unwrap();
    let r = commit(&mut refs, &index, &mut store, "nothing".to_string(), None, 0);
    assert!(matches!(r, Err(GitError::NothingToCommit)));
    assert_eq!(refs.branches.len(), 0);
}

#[test]
fn commit_round_trips_through_the_store() {
    let mut store = fresh_store();
    let mut refs = RefState::new();
    let mut index = load_index(None).unwrap();
    add_file_to_index(&mut index, &mut store, b"hello\n", "hello.txt").unwrap();
    let cid = commit(
        &mut refs,
        &index,
        &mut store,
        "first".to_string(),
        Some("Me <me@example.com>".to_string()),
        1700000000,
    )
    .unwrap();
    let c = store.load_commit(&cid).unwrap();
    assert_eq!(c.hash, cid);
    assert_eq!(c.parent, None);
    assert_eq!(c.author, "Me <me@example.com>");
    assert_eq!(c.message, "first");
    assert_eq!(c.timestamp, 1700000000);
    let t = store.load_tree(&c.tree).unwrap();
    assert_eq!(t.hash, c.tree);
    assert_eq!(t.entries.len(), 1);
    assert_eq!(t.entries[0].name, "hello.txt");
    assert!(t.entries[0].is_file);
    let b = store.load_blob(&t.entries[0].hash).unwrap();
    assert_eq!(b.content, b"hello\n".to_vec());
    assert_eq!(refs.branches.len(), 1);
    assert_eq!(refs.branches[0].name, "main");
    assert_eq!(refs.branches[0].commit, cid);
}

#[test]
fn commit_identity_ignores_the_timestamp() {
    let mut store1 = fresh_store();
    let mut refs1 = RefState::new();
    let mut index1 = load_index(None).unwrap();
    add_file_to_index(&mut index1, &mut store1, b"same", "f").unwrap();
    let c1 = commit(&mut refs1, &index1, &mut store1, "m".to_string(), None, 1).unwrap();

    let mut store2 = fresh_store();
    let mut refs2 = RefState::new();
    let mut index2 = load_index(None).unwrap();
    add_file_to_index(&mut index2, &mut store2, b"same", "f").unwrap();
    let c2 = commit(&mut refs2, &index2, &mut store2, "m".to_string(), None, 999).unwrap();
    assert_eq!(c1, c2);
}

#[test]
fn second_commit_links_to_the_first() {
    let mut store = fresh_store();
    let mut refs = RefState::new();
    let mut index = load_index(None).unwrap();
    add_file_to_index(&mut index, &mut store, b"v1", "f").unwrap();
    let c1 = commit(&mut refs, &index, &mut store, "one".to_string(), None, 1).unwrap();
    add_file_to_index(&mut index, &mut store, b"v2", "f").unwrap();
    let c2 = commit(&mut refs, &index, &mut store, "two".to_string(), None, 2).unwrap();
    assert_ne!(c1, c2);
    let loaded = store.load_commit(&c2).unwrap();
    assert_eq!(loaded.parent, Some(c1));
    assert_eq!(refs.branches[0].commit, c2);
}
