use crab_git::errors::GitError;
use crab_git::init::init;
use crab_git::refs::{format_head, parse_head, Head};
use crab_git::strutil::trim_str;
use crab_git::utils::{find_git_dir, get_repository, DirProbe};

#[test]
fn init_lays_out_the_store_root() {
    let layout = init("/home/me/project/.crab_git");
    assert_eq!(
        layout.dirs,
        vec![
            "/home/me/project/.crab_git".to_string(),
            "/home/me/project/.crab_git/objects".to_string(),
            "/home/me/project/.crab_git/refs/heads".to_string(),
            "/home/me/project/.crab_git/refs/remotes".to_string(),
        ]
    );
    assert_eq!(layout.head_path, "/home/me/project/.crab_git/HEAD");
    assert_eq!(layout.head_content, "ref: refs/heads/main");
    assert_eq!(layout.config_path, "/home/me/project/.crab_git/config");
    assert_eq!(layout.config_content, "[\n  \"core\"\n]\n");
}

#[test]
fn trim_removes_surrounding_whitespace() {
    assert_eq!(trim_str("  spaced out \n"), "spaced out");
    assert_eq!(trim_str("untouched"), "untouched");
    assert_eq!(trim_str(" \t\r\n"), "");
}

#[test]
fn head_parsing_understands_both_forms() {
    match parse_head("ref: refs/heads/main") {
        Head::Attached { branch } => assert_eq!(branch, "main"),
        _ => panic!("expected an attached head"),
    }
    match parse_head("ref: refs/heads/feature\n") {
        Head::Attached { branch } => assert_eq!(branch, "feature"),
        _ => panic!("expected an attached head"),
    }
    match parse_head("0a1b2c3d\n") {
        Head::Detached { commit } => assert_eq!(commit, "0a1b2c3d"),
        _ => panic!("expected a detached head"),
    }
}

#[test]
fn head_formatting_round_trips() {
    let attached = Head::Attached { branch: "main".to_string() };
    assert_eq!(format_head(&attached), "ref: refs/heads/main");
    match parse_head(&format_head(&attached)) {
        Head::Attached { branch } => assert_eq!(branch, "main"),
        _ => panic!("expected an attached head"),
    }
    let detached = Head::Detached { commit: "cafe".to_string() };
    assert_eq!(format_head(&detached), "cafe");
}

#[test]
fn repository_discovery_takes_the_nearest_ancestor() {
    let probes = vec![
        DirProbe {
            dir: "/a/b/c".to_string(),
            git_dir: "/a/b/c/.crab_git".to_string(),
            exists: false,
        },
        DirProbe {
            dir: "/a/b".to_string(),
            git_dir: "/a/b/.crab_git".to_string(),
            exists: true,
        },
        DirProbe {
            dir: "/a".to_string(),
            git_dir: "/a/.crab_git".to_string(),
            exists: true,
        },
    ];
    assert_eq!(find_git_dir(&probes), Some("/a/b/.crab_git".to_string()));
    let repo = get_repository(&probes).unwrap();
    assert_eq!(repo.git_dir, "/a/b/.crab_git");
    assert_eq!(repo.work_dir, "/a/b");
}

#[test]
fn repository_discovery_fails_outside_any_repository() {
    let probes = vec![
        DirProbe {
            dir: "/tmp".to_string(),
            git_dir: "/tmp/.crab_git".to_string(),
            exists: false,
        },
    ];
    assert_eq!(find_git_dir(&probes), None);
    assert!(matches!(get_repository(&probes), Err(GitError::NotARepository)));
}

#[test]
fn error_messages_name_their_failures() {
    assert_eq!(GitError::NothingToCommit.message(), "nothing to commit, working tree clean");
    assert_eq!(GitError::NoCommitsYet.message(), "no commits yet, cannot create branch");
    assert_ne!(GitError::ObjectNotFound.message(), GitError::MalformedObject.message());
}
