//! The data model: objects (blob, tree, commit), the staging index, branch
//! refs and the repository handle, together with their mathematical views.

use vstd::prelude::*;

verus! {

/// The view of an optional string.
pub open spec fn opt_str_view(s: Option<String>) -> Option<Seq<char>> {
    match s {
        Some(t) => Some(t@),
        None => None,
    }
}

/// The raw byte content of one tracked file, addressed by its digest.
#[derive(Debug, Clone)]
pub struct Blob {
    pub hash: String,
    pub content: Vec<u8>,
}

pub ghost struct BlobView {
    pub hash: Seq<char>,
    pub content: Seq<u8>,
}

impl View for Blob {
    type V = BlobView;

    open spec fn view(&self) -> BlobView {
        BlobView { hash: self.hash@, content: self.content@ }
    }
}

/// One path's metadata within a tree: paths are kept flat, so `name` is the
/// full relative path of the tracked file.
#[derive(Debug, Clone)]
pub struct TreeEntry {
    pub mode: String,
    pub hash: String,
    pub name: String,
    pub is_file: bool,
}

pub ghost struct TreeEntryView {
    pub mode: Seq<char>,
    pub hash: Seq<char>,
    pub name: Seq<char>,
    pub is_file: bool,
}

impl View for TreeEntry {
    type V = TreeEntryView;

    open spec fn view(&self) -> TreeEntryView {
        TreeEntryView {
            mode: self.mode@,
            hash: self.hash@,
            name: self.name@,
            is_file: self.is_file,
        }
    }
}

/// A snapshot of tracked paths: a flat list of entries with pairwise
/// distinct names, addressed by the digest of its serialized entries.
#[derive(Debug, Clone)]
pub struct Tree {
    pub hash: String,
    pub entries: Vec<TreeEntry>,
}

pub ghost struct TreeView {
    pub hash: Seq<char>,
    pub entries: Seq<TreeEntryView>,
}

impl View for Tree {
    type V = TreeView;

    open spec fn view(&self) -> TreeView {
        TreeView {
            hash: self.hash@,
            entries: self.entries@.map_values(|e: TreeEntry| e@),
        }
    }
}

impl Tree {
    /// Entry names are pairwise distinct: the entry list is a mapping.
    pub open spec fn wf(self) -> bool {
        forall|i: int, j: int|
            0 <= i < j < self@.entries.len() ==> self@.entries[i].name != self@.entries[j].name
    }
}

/// An immutable history record: a tree snapshot, an optional parent commit,
/// and metadata. The timestamp counts seconds since the Unix epoch and is
/// deliberately left out of the commit's identity.
#[derive(Debug, Clone)]
pub struct Commit {
    pub hash: String,
    pub parent: Option<String>,
    pub tree: String,
    pub author: String,
    pub message: String,
    pub timestamp: u64,
}

pub ghost struct CommitView {
    pub hash: Seq<char>,
    pub parent: Option<Seq<char>>,
    pub tree: Seq<char>,
    pub author: Seq<char>,
    pub message: Seq<char>,
    pub timestamp: u64,
}

impl View for Commit {
    type V = CommitView;

    open spec fn view(&self) -> CommitView {
        CommitView {
            hash: self.hash@,
            parent: opt_str_view(self.parent),
            tree: self.tree@,
            author: self.author@,
            message: self.message@,
            timestamp: self.timestamp,
        }
    }
}

/// The repository handle: where the store lives and where the working
/// directory starts. Resolved once by the caller and passed along.
#[derive(Debug, Clone)]
pub struct Repository {
    pub git_dir: String,
    pub work_dir: String,
}

/// One staged path: the blob it points at, its file mode, and the relative
/// path it was staged under.
#[derive(Debug, Clone)]
pub struct IndexEntry {
    pub hash: String,
    pub mode: String,
    pub path: String,
}

pub ghost struct IndexEntryView {
    pub hash: Seq<char>,
    pub mode: Seq<char>,
    pub path: Seq<char>,
}

impl View for IndexEntry {
    type V = IndexEntryView;

    open spec fn view(&self) -> IndexEntryView {
        IndexEntryView { hash: self.hash@, mode: self.mode@, path: self.path@ }
    }
}

/// The staging area: the set of pending path-to-content associations, kept
/// in staging order with pairwise distinct paths.
#[derive(Debug, Clone)]
pub struct Index {
    pub entries: Vec<IndexEntry>,
}

impl View for Index {
    type V = Seq<IndexEntryView>;

    open spec fn view(&self) -> Seq<IndexEntryView> {
        self.entries@.map_values(|e: IndexEntry| e@)
    }
}

impl Index {
    /// Paths are pairwise distinct: the entry list is a mapping.
    pub open spec fn wf(self) -> bool {
        forall|i: int, j: int| 0 <= i < j < self@.len() ==> self@[i].path != self@[j].path
    }

    pub open spec fn has_path(self, path: Seq<char>) -> bool {
        exists|i: int| 0 <= i < self@.len() && self@[i].path == path
    }

    /// The staged entry under `path`, if any.
    pub open spec fn entry_for(self, path: Seq<char>) -> IndexEntryView
        recommends
            self.has_path(path),
    {
        self@[choose|i: int| 0 <= i < self@.len() && self@[i].path == path]
    }

    pub fn new() -> (r: Index)
        ensures
            r@ =~= Seq::<IndexEntryView>::empty(),
            r.wf(),
    {
        Index { entries: Vec::new() }
    }

    pub fn is_empty(&self) -> (r: bool)
        ensures
            r == (self@.len() == 0),
    {
        self.entries.len() == 0
    }

    /// Position of the entry staged under `path`, if any.
    pub fn find(&self, path: &String) -> (r: Option<usize>)
        ensures
            match r {
                Some(i) => i < self@.len() && self@[i as int].path == path@,
                None => !self.has_path(path@),
            },
    {
        let mut i: usize = 0;
        while i < self.entries.len()
            invariant
                i <= self@.len(),
                forall|j: int| 0 <= j < i ==> self@[j].path != path@,
            decreases self@.len() - i,
        {
            if self.entries[i].path == *path {
                return Some(i);
            }
            i += 1;
        }
        None
    }
}

/// A named mutable pointer to a commit.
#[derive(Debug, Clone)]
pub struct Branch {
    pub name: String,
    pub commit: String,
}

pub ghost struct BranchView {
    pub name: Seq<char>,
    pub commit: Seq<char>,
}

impl View for Branch {
    type V = BranchView;

    open spec fn view(&self) -> BranchView {
        BranchView { name: self.name@, commit: self.commit@ }
    }
}

/// One file of the working tree, as the caller's directory scan hands it
/// over: a slash-separated relative path and the file's bytes.
#[derive(Debug, Clone)]
pub struct WorkFile {
    pub path: String,
    pub content: Vec<u8>,
}

pub ghost struct WorkFileView {
    pub path: Seq<char>,
    pub content: Seq<u8>,
}

impl View for WorkFile {
    type V = WorkFileView;

    open spec fn view(&self) -> WorkFileView {
        WorkFileView { path: self.path@, content: self.content@ }
    }
}

/// A named remote location. Reserved: the core never transfers objects.
#[derive(Debug, Clone)]
pub struct Remote {
    pub name: String,
    pub url: String,
}

} // verus!
