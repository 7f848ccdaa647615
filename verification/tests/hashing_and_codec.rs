use crab_git::codec::{
    decode_blob, decode_commit, decode_index, decode_tree, encode_blob, encode_commit,
    encode_index, encode_tree,
};
use crab_git::compress::{compress_bytes, decompress_bytes};
use crab_git::errors::GitError;
use crab_git::object_store::ObjectStore;
use crab_git::strutil::{ascii_bytes_to_string, bytes_to_string, bytes_to_string_lossy};
use crab_git::types::{Blob, Commit, Index, IndexEntry, Tree, TreeEntry};

#[test]
fn hash_is_deterministic_across_calls() {
    let a = ObjectStore::hash_content(b"identical bytes");
    let b = ObjectStore::hash_content(b"identical bytes");
    assert_eq!(a, b);
    assert_ne!(a, ObjectStore::hash_content(b"other bytes"));
}

#[test]
fn hash_matches_known_vectors() {
    assert_eq!(
        ObjectStore::hash_content(b""),
        "e3b0c44298fc1c149afbf4c8996fb92427ae41e4649b934ca495991b7852b855"
    );
    assert_eq!(
        ObjectStore::hash_content(b"abc"),
        "ba7816bf8f01cfea414140de5dae2223b00361a396177a9cb410ff61f20015ad"
    );
}

#[test]
fn compression_round_trips() {
    let data = b"some text that zlib will happily squeeze".to_vec();
    let compressed = compress_bytes(&data);
    assert_eq!(decompress_bytes(&compressed), Some(data));
}

#[test]
fn decompression_reads_a_real_zlib_stream() {
    // The zlib stream for "hello", produced independently; a decompressor
    // that handed bytes back unchanged would fail here.
    let stream: Vec<u8> = vec![0x78, 0x9c, 0xcb, 0x48, 0xcd, 0xc9, 0xc9, 0x07, 0x00, 0x06, 0x2c,
        0x02, 0x15];
    assert_eq!(decompress_bytes(&stream), Some(b"hello".to_vec()));
    assert_eq!(decompress_bytes(b"not a zlib stream"), None);
}

#[test]
fn utf8_conversion_is_strict_and_lossy_as_named() {
    let s = bytes_to_string(b"h\xc3\xa9llo").unwrap();
    assert_eq!(s, "h\u{e9}llo");
    assert!(bytes_to_string(b"\xff\xfe").is_none());
    assert_eq!(bytes_to_string_lossy(b"ab\xffcd"), "ab\u{fffd}cd");
    assert_eq!(ascii_bytes_to_string(b"plain ascii"), "plain ascii");
}

#[test]
fn blob_payload_round_trips() {
    let blob = Blob { hash: "deadbeef".to_string(), content: b"\x00\x01binary\xff".to_vec() };
    let payload = encode_blob(&blob);
    let back = decode_blob(&payload).unwrap();
    assert_eq!(back.hash, blob.hash);
    assert_eq!(back.content, blob.content);
}

#[test]
fn tree_payload_round_trips() {
    let tree = Tree {
        hash: "1111".to_string(),
        entries: vec![
            TreeEntry {
                mode: "100644".to_string(),
                hash: "aaaa".to_string(),
                name: "src/main.rs".to_string(),
                is_file: true,
            },
            TreeEntry {
                mode: "100644".to_string(),
                hash: "bbbb".to_string(),
                name: "README.md".to_string(),
                is_file: true,
            },
        ],
    };
    let payload = encode_tree(&tree);
    let back = decode_tree(&payload).unwrap();
    assert_eq!(back.hash, tree.hash);
    assert_eq!(back.entries.len(), 2);
    assert_eq!(back.entries[0].name, "src/main.rs");
    assert_eq!(back.entries[0].hash, "aaaa");
    assert_eq!(back.entries[1].name, "README.md");
    assert!(back.entries[1].is_file);
}

#[test]
fn commit_payload_round_trips() {
    let commit = Commit {
        hash: "cccc".to_string(),
        parent: Some("pppp".to_string()),
        tree: "tttt".to_string(),
        author: "A <a@example.com>".to_string(),
        message: "first\n\nbody".to_string(),
        timestamp: 1700000000,
    };
    let payload = encode_commit(&commit);
    let back = decode_commit(&payload).unwrap();
    assert_eq!(back.hash, commit.hash);
    assert_eq!(back.parent, commit.parent);
    assert_eq!(back.tree, commit.tree);
    assert_eq!(back.author, commit.author);
    assert_eq!(back.message, commit.message);
    assert_eq!(back.timestamp, commit.timestamp);

    let rootless = Commit { parent: None, ..commit };
    let payload2 = encode_commit(&rootless);
    assert_eq!(decode_commit(&payload2).unwrap().parent, None);
}

#[test]
fn index_payload_round_trips() {
    let index = Index {
        entries: vec![
            IndexEntry {
                hash: "aaaa".to_string(),
                mode: "100644".to_string(),
                path: "a.txt".to_string(),
            },
            IndexEntry {
                hash: "bbbb".to_string(),
                mode: "100644".to_string(),
                path: "b.txt".to_string(),
            },
        ],
    };
    let payload = encode_index(&index);
    let back = decode_index(&payload).unwrap();
    assert_eq!(back.entries.len(), 2);
    assert_eq!(back.entries[0].path, "a.txt");
    assert_eq!(back.entries[1].hash, "bbbb");
}

#[test]
fn malformed_payloads_are_rejected() {
    assert!(matches!(decode_blob(b"junk"), Err(GitError::MalformedObject)));
    assert!(matches!(decode_tree(b""), Err(GitError::MalformedObject)));
    assert!(matches!(decode_commit(b"C"), Err(GitError::MalformedObject)));
    let blob = Blob { hash: "h".repeat(4), content: vec![1, 2, 3] };
    let mut payload = encode_blob(&blob);
    payload.push(0);
    assert!(matches!(decode_blob(&payload), Err(GitError::MalformedObject)));
}

#[test]
fn index_decoding_rejects_duplicate_paths() {
    let index = Index {
        entries: vec![
            IndexEntry {
                hash: "aaaa".to_string(),
                mode: "100644".to_string(),
                path: "same.txt".to_string(),
            },
            IndexEntry {
                hash: "bbbb".to_string(),
                mode: "100644".to_string(),
                path: "same.txt".to_string(),
            },
        ],
    };
    let payload = encode_index(&index);
    assert!(matches!(decode_index(&payload), Err(GitError::MalformedObject)));
}
