//! The content-addressable object store: an in-memory image of the
//! `objects/` directory, mapping hex digests to compressed object payloads.
//! The caller reads stored files into it before an operation and writes new
//! entries back out afterwards; writing the same digest twice is idempotent,
//! so replaying every entry is always safe.

use vstd::prelude::*;
use vstd::slice::slice_to_vec;
use vstd::string::{StrSliceExecFns, StringExecFns};
use vstd::utf8::is_ascii_chars;
use crate::compress::{compress_bytes, decompress_bytes, zlib_inflate};
use crate::codec::{
    commit_fits, decode_blob, decode_commit, decode_tree, dec_blob, dec_commit, dec_tree, enc_blob,
    enc_commit, enc_tree, encode_blob, encode_commit, encode_tree, lemma_blob_round_trip,
    lemma_commit_round_trip, lemma_tree_round_trip, str_fits, tree_entries_fit,
};
use crate::errors::GitError;
use crate::hashing::{digest_hex, sha256_hex};
use crate::types::{Blob, BlobView, Commit, CommitView, Repository, Tree, TreeView};

verus! {

/// One stored object: a digest and the compressed payload filed under it.
#[derive(Debug, Clone)]
pub struct StoredObject {
    pub hash: String,
    pub data: Vec<u8>,
}

pub ghost struct StoredObjectView {
    pub hash: Seq<char>,
    pub data: Seq<u8>,
}

impl View for StoredObject {
    type V = StoredObjectView;

    open spec fn view(&self) -> StoredObjectView {
        StoredObjectView { hash: self.hash@, data: self.data@ }
    }
}

/// The mapping an object list spells out, later entries winning.
pub open spec fn map_of(objs: Seq<StoredObject>) -> Map<Seq<char>, Seq<u8>>
    decreases objs.len(),
{
    if objs.len() == 0 {
        Map::empty()
    } else {
        map_of(objs.drop_last()).insert(objs.last().hash@, objs.last().data@)
    }
}

pub open spec fn unique_hashes(objs: Seq<StoredObject>) -> bool {
    forall|i: int, j: int| 0 <= i < j < objs.len() ==> objs[i].hash@ != objs[j].hash@
}

proof fn lemma_map_of_contains(objs: Seq<StoredObject>, h: Seq<char>)
    ensures
        map_of(objs).contains_key(h) <==> exists|i: int|
            0 <= i < objs.len() && objs[i].hash@ == h,
    decreases objs.len(),
{
    if objs.len() == 0 {
    } else {
        let pre = objs.drop_last();
        lemma_map_of_contains(pre, h);
        if objs.last().hash@ == h {
            assert(objs[objs.len() - 1].hash@ == h);
        } else if map_of(pre).contains_key(h) {
            let i = choose|i: int| 0 <= i < pre.len() && pre[i].hash@ == h;
            assert(objs[i].hash@ == h);
        } else {
            assert forall|i: int| 0 <= i < objs.len() implies objs[i].hash@ != h by {
                if i < objs.len() - 1 {
                    assert(pre[i].hash@ == objs[i].hash@);
                }
            }
        }
    }
}

proof fn lemma_map_of_get(objs: Seq<StoredObject>, i: int)
    requires
        unique_hashes(objs),
        0 <= i < objs.len(),
    ensures
        map_of(objs).contains_key(objs[i].hash@),
        map_of(objs)[objs[i].hash@] == objs[i].data@,
    decreases objs.len(),
{
    let pre = objs.drop_last();
    if i == objs.len() - 1 {
    } else {
        assert(pre[i] == objs[i]);
        lemma_map_of_get(pre, i);
        assert(objs.last().hash@ != objs[i].hash@);
    }
}

proof fn lemma_map_of_update(objs: Seq<StoredObject>, i: int, o: StoredObject)
    requires
        unique_hashes(objs),
        0 <= i < objs.len(),
        o.hash@ == objs[i].hash@,
    ensures
        map_of(objs.update(i, o)) == map_of(objs).insert(o.hash@, o.data@),
    decreases objs.len(),
{
    let u = objs.update(i, o);
    let pre = objs.drop_last();
    if i == objs.len() - 1 {
        assert(u.drop_last() =~= pre);
        assert(u.last() == o);
        assert(map_of(u) == map_of(pre).insert(o.hash@, o.data@));
        assert(map_of(objs).insert(o.hash@, o.data@) =~= map_of(pre).insert(o.hash@, o.data@));
    } else {
        assert(u.drop_last() =~= pre.update(i, o));
        assert(u.last() == objs.last());
        assert(pre[i] == objs[i]);
        lemma_map_of_update(pre, i, o);
        let lh = objs.last().hash@;
        let ld = objs.last().data@;
        assert(lh != o.hash@);
        assert(map_of(u) == map_of(pre).insert(o.hash@, o.data@).insert(lh, ld));
        assert(map_of(pre).insert(o.hash@, o.data@).insert(lh, ld) =~= map_of(pre).insert(
            lh,
            ld,
        ).insert(o.hash@, o.data@));
    }
}

/// What loading a blob from a store image yields: the object must be
/// present, decompress, and decode as a blob.
pub open spec fn spec_load_blob(m: Map<Seq<char>, Seq<u8>>, h: Seq<char>) -> Result<
    BlobView,
    GitError,
> {
    if !m.contains_key(h) {
        Err(GitError::ObjectNotFound)
    } else {
        match zlib_inflate(m[h]) {
            None => Err(GitError::MalformedObject),
            Some(p) => match dec_blob(p) {
                None => Err(GitError::MalformedObject),
                Some(bv) => Ok(bv),
            },
        }
    }
}

/// What loading a tree from a store image yields.
pub open spec fn spec_load_tree(m: Map<Seq<char>, Seq<u8>>, h: Seq<char>) -> Result<
    TreeView,
    GitError,
> {
    if !m.contains_key(h) {
        Err(GitError::ObjectNotFound)
    } else {
        match zlib_inflate(m[h]) {
            None => Err(GitError::MalformedObject),
            Some(p) => match dec_tree(p) {
                None => Err(GitError::MalformedObject),
                Some(tv) => Ok(tv),
            },
        }
    }
}

/// What loading a commit from a store image yields.
pub open spec fn spec_load_commit(m: Map<Seq<char>, Seq<u8>>, h: Seq<char>) -> Result<
    CommitView,
    GitError,
> {
    if !m.contains_key(h) {
        Err(GitError::ObjectNotFound)
    } else {
        match zlib_inflate(m[h]) {
            None => Err(GitError::MalformedObject),
            Some(p) => match dec_commit(p) {
                None => Err(GitError::MalformedObject),
                Some(cv) => Ok(cv),
            },
        }
    }
}

/// The object store. Its view is the digest-to-compressed-payload mapping.
pub struct ObjectStore {
    pub objects_dir: String,
    pub objects: Vec<StoredObject>,
}

impl View for ObjectStore {
    type V = Map<Seq<char>, Seq<u8>>;

    open spec fn view(&self) -> Map<Seq<char>, Seq<u8>> {
        map_of(self.objects@)
    }
}

impl ObjectStore {
    /// Digests are filed once each: the object list is a mapping.
    pub open spec fn wf(self) -> bool {
        unique_hashes(self.objects@)
    }

    /// A fresh, empty store image for the given repository.
    pub fn new(repo: &Repository) -> (r: ObjectStore)
        ensures
            r@ == Map::<Seq<char>, Seq<u8>>::empty(),
            r.wf(),
            r.objects_dir@ == repo.git_dir@ + "/objects"@,
    {
        let dir = repo.git_dir.clone().concat("/objects");
        ObjectStore { objects_dir: dir, objects: Vec::new() }
    }

    /// The directory the object store files its payloads under; the caller
    /// creates it when the repository is initialized.
    pub fn init(&self) -> (r: String)
        ensures
            r@ == self.objects_dir@,
    {
        self.objects_dir.clone()
    }

    /// The digest string of a byte sequence: SHA-256 rendered as 64
    /// lowercase hex characters. Deterministic: a function of the bytes
    /// alone.
    pub fn hash_content(content: &[u8]) -> (r: String)
        ensures
            r@ == sha256_hex(content@),
            r@.len() == 64,
            is_ascii_chars(r@),
    {
        digest_hex(content)
    }

    /// Splits a digest into the directory prefix and file name its object
    /// is filed under on disk.
    pub fn object_rel_path(hash: &str) -> (r: (String, String))
        requires
            hash@.len() >= 2,
        ensures
            r.0@ == hash@.subrange(0, 2),
            r.1@ == hash@.subrange(2, hash@.len() as int),
    {
        let n = hash.unicode_len();
        let dir = hash.substring_char(0, 2).to_owned();
        let rest = hash.substring_char(2, n).to_owned();
        (dir, rest)
    }

    /// Position of the object filed under `hash`, if any.
    #[verifier::loop_isolation(false)]
    fn find_idx(&self, hash: &String) -> (r: Option<usize>)
        requires
            self.wf(),
        ensures
            match r {
                Some(i) => i < self.objects@.len() && self.objects@[i as int].hash@ == hash@
                    && self@.contains_key(hash@) && self@[hash@] == self.objects@[
                    i as int
                ].data@,
                None => !self@.contains_key(hash@),
            },
    {
        let mut i: usize = 0;
        while i < self.objects.len()
            invariant
                i <= self.objects@.len(),
                forall|j: int| 0 <= j < i ==> self.objects@[j].hash@ != hash@,
            decreases self.objects@.len() - i,
        {
            if self.objects[i].hash == *hash {
                proof {
                    lemma_map_of_get(self.objects@, i as int);
                }
                return Some(i);
            }
            i += 1;
        }
        proof {
            lemma_map_of_contains(self.objects@, hash@);
        }
        None
    }

    /// Whether an object is filed under `hash`.
    pub fn object_exists(&self, hash: &str) -> (r: bool)
        requires
            self.wf(),
        ensures
            r == self@.contains_key(hash@),
    {
        let h = hash.to_owned();
        match self.find_idx(&h) {
            Some(_) => true,
            None => false,
        }
    }

    /// Files raw bytes under a digest, replacing any previous entry. This
    /// is how the caller plays stored object files back into the image.
    pub fn insert_raw(&mut self, hash: String, data: Vec<u8>)
        requires
            old(self).wf(),
        ensures
            final(self).wf(),
            final(self)@ == old(self)@.insert(hash@, data@),
            final(self).objects_dir == old(self).objects_dir,
    {
        let o = StoredObject { hash, data };
        match self.find_idx(&o.hash) {
            Some(i) => {
                proof {
                    lemma_map_of_update(self.objects@, i as int, o);
                }
                self.objects.set(i, o);
            },
            None => {
                proof {
                    let objs = self.objects@;
                    assert(objs.push(o).drop_last() =~= objs);
                    lemma_map_of_contains(objs, o.hash@);
                    assert forall|a: int, b: int|
                        0 <= a < b < objs.push(o).len() implies objs.push(o)[a].hash@ != objs.push(
                        o,
                    )[b].hash@ by {
                        if b < objs.len() {
                            assert(objs[a].hash@ != objs[b].hash@);
                        } else {
                            assert(objs.push(o)[b] == o);
                            assert(objs[a].hash@ != o.hash@);
                        }
                    }
                }
                self.objects.push(o);
            },
        }
    }

    /// Compresses a payload and files it under `hash`. Idempotent: content
    /// equality implies digest equality, so refiling a digest restores the
    /// same mapping.
    pub fn store_object(&mut self, hash: &str, content: &[u8]) -> (r: Result<(), GitError>)
        requires
            old(self).wf(),
        ensures
            final(self).wf(),
            final(self).objects_dir == old(self).objects_dir,
            r is Ok,
            final(self)@ == old(self)@.insert(hash@, final(self)@[hash@]),
            zlib_inflate(final(self)@[hash@]) == Some(content@),
    {
        let compressed = compress_bytes(content);
        self.insert_raw(hash.to_owned(), compressed);
        Ok(())
    }

    /// Looks an object up and decompresses its payload.
    pub fn load_object(&self, hash: &str) -> (r: Result<Vec<u8>, GitError>)
        requires
            self.wf(),
        ensures
            match r {
                Ok(v) => self@.contains_key(hash@) && zlib_inflate(self@[hash@]) == Some(v@),
                Err(e) => if !self@.contains_key(hash@) {
                    e == GitError::ObjectNotFound
                } else {
                    e == GitError::MalformedObject && zlib_inflate(self@[hash@]) is None
                },
            },
    {
        let h = hash.to_owned();
        match self.find_idx(&h) {
            Some(i) => match decompress_bytes(self.objects[i].data.as_slice()) {
                Some(v) => Ok(v),
                None => Err(GitError::MalformedObject),
            },
            None => Err(GitError::ObjectNotFound),
        }
    }

    /// Hashes `content`, wraps it as a blob, and files the compressed blob
    /// payload under the digest, which is returned.
    pub fn store_blob(&mut self, content: &[u8]) -> (r: Result<String, GitError>)
        requires
            old(self).wf(),
        ensures
            final(self).wf(),
            final(self).objects_dir == old(self).objects_dir,
            r matches Ok(h) && h@ == sha256_hex(content@),
            final(self)@ == old(self)@.insert(sha256_hex(content@), final(self)@[sha256_hex(
                content@,
            )]),
            zlib_inflate(final(self)@[sha256_hex(content@)]) == Some(
                enc_blob(BlobView { hash: sha256_hex(content@), content: content@ }),
            ),
    {
        let hash = Self::hash_content(content);
        let blob = Blob { hash: hash.clone(), content: slice_to_vec(content) };
        let payload = encode_blob(&blob);
        let _ = self.store_object(hash.as_str(), payload.as_slice());
        Ok(hash)
    }

    /// Files the compressed tree payload under the tree's own digest.
    pub fn store_tree(&mut self, tree: &Tree) -> (r: Result<String, GitError>)
        requires
            old(self).wf(),
        ensures
            final(self).wf(),
            final(self).objects_dir == old(self).objects_dir,
            r matches Ok(h) && h@ == tree.hash@,
            final(self)@ == old(self)@.insert(tree.hash@, final(self)@[tree.hash@]),
            zlib_inflate(final(self)@[tree.hash@]) == Some(enc_tree(tree@)),
    {
        let payload = encode_tree(tree);
        let _ = self.store_object(tree.hash.as_str(), payload.as_slice());
        Ok(tree.hash.clone())
    }

    /// Files the compressed commit payload under the commit's own digest.
    pub fn store_commit(&mut self, commit: &Commit) -> (r: Result<String, GitError>)
        requires
            old(self).wf(),
        ensures
            final(self).wf(),
            final(self).objects_dir == old(self).objects_dir,
            r matches Ok(h) && h@ == commit.hash@,
            final(self)@ == old(self)@.insert(commit.hash@, final(self)@[commit.hash@]),
            zlib_inflate(final(self)@[commit.hash@]) == Some(enc_commit(commit@)),
    {
        let payload = encode_commit(commit);
        let _ = self.store_object(commit.hash.as_str(), payload.as_slice());
        Ok(commit.hash.clone())
    }

    /// Loads and decodes the blob filed under `hash`.
    pub fn load_blob(&self, hash: &str) -> (r: Result<Blob, GitError>)
        requires
            self.wf(),
        ensures
            match r {
                Ok(b) => spec_load_blob(self@, hash@) == Ok::<BlobView, GitError>(b@),
                Err(e) => spec_load_blob(self@, hash@) == Err::<BlobView, GitError>(e),
            },
    {
        match self.load_object(hash) {
            Ok(payload) => decode_blob(payload.as_slice()),
            Err(e) => Err(e),
        }
    }

    /// Loads and decodes the tree filed under `hash`.
    pub fn load_tree(&self, hash: &str) -> (r: Result<Tree, GitError>)
        requires
            self.wf(),
        ensures
            match r {
                Ok(t) => spec_load_tree(self@, hash@) == Ok::<TreeView, GitError>(t@),
                Err(e) => spec_load_tree(self@, hash@) == Err::<TreeView, GitError>(e),
            },
    {
        match self.load_object(hash) {
            Ok(payload) => decode_tree(payload.as_slice()),
            Err(e) => Err(e),
        }
    }

    /// Loads and decodes the commit filed under `hash`.
    pub fn load_commit(&self, hash: &str) -> (r: Result<Commit, GitError>)
        requires
            self.wf(),
        ensures
            match r {
                Ok(c) => spec_load_commit(self@, hash@) == Ok::<CommitView, GitError>(c@),
                Err(e) => spec_load_commit(self@, hash@) == Err::<CommitView, GitError>(e),
            },
    {
        match self.load_object(hash) {
            Ok(payload) => decode_commit(payload.as_slice()),
            Err(e) => Err(e),
        }
    }

    /// The stored objects, digest and compressed payload each, for the
    /// caller to write out.
    pub fn objects(&self) -> (r: &Vec<StoredObject>)
        requires
            self.wf(),
        ensures
            r@ == self.objects@,
            forall|i: int|
                0 <= i < r@.len() ==> self@.contains_key(#[trigger] r@[i].hash@) && self@[r@[
                    i
                ].hash@] == r@[i].data@,
    {
        proof {
            assert forall|i: int| 0 <= i < self.objects@.len() implies self@.contains_key(
                #[trigger] self.objects@[i].hash@,
            ) && self@[self.objects@[i].hash@] == self.objects@[i].data@ by {
                lemma_map_of_get(self.objects@, i);
            }
        }
        &self.objects
    }
}

/// Store round trip for blobs: wherever the store maps a digest to a
/// payload that decompresses to a blob's encoding, loading that digest
/// yields the blob back, field for field.
pub proof fn lemma_store_load_blob(m: Map<Seq<char>, Seq<u8>>, h: Seq<char>, bv: BlobView)
    requires
        m.contains_key(h),
        zlib_inflate(m[h]) == Some(enc_blob(bv)),
        str_fits(bv.hash),
        bv.content.len() <= u64::MAX,
    ensures
        spec_load_blob(m, h) == Ok::<BlobView, GitError>(bv),
{
    lemma_blob_round_trip(bv);
}

/// Store round trip for trees.
pub proof fn lemma_store_load_tree(m: Map<Seq<char>, Seq<u8>>, h: Seq<char>, tv: TreeView)
    requires
        m.contains_key(h),
        zlib_inflate(m[h]) == Some(enc_tree(tv)),
        str_fits(tv.hash),
        tree_entries_fit(tv.entries),
        tv.entries.len() <= u64::MAX,
    ensures
        spec_load_tree(m, h) == Ok::<TreeView, GitError>(tv),
{
    lemma_tree_round_trip(tv);
}

/// Store round trip for commits.
pub proof fn lemma_store_load_commit(m: Map<Seq<char>, Seq<u8>>, h: Seq<char>, cv: CommitView)
    requires
        m.contains_key(h),
        zlib_inflate(m[h]) == Some(enc_commit(cv)),
        commit_fits(cv),
    ensures
        spec_load_commit(m, h) == Ok::<CommitView, GitError>(cv),
{
    lemma_commit_round_trip(cv);
}

} // verus!
