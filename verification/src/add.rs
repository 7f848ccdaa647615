//! Staging: reads a file's bytes into a blob in the object store and
//! points the index entry for its relative path at the digest. Staging a
//! path again overwrites its entry, which is how modifications re-stage.

use vstd::prelude::*;
use vstd::string::StrSliceExecFns;
use crate::codec::enc_blob;
use crate::compress::zlib_inflate;
use crate::errors::GitError;
use crate::hashing::sha256_hex;
use crate::object_store::ObjectStore;
use crate::types::{BlobView, Index, IndexEntry, IndexEntryView, WorkFile, WorkFileView};

verus! {

/// The regular-file mode every staged entry carries.
pub open spec fn file_mode() -> Seq<char> {
    "100644"@
}

/// Replaces the entry staged under the same path, or appends the entry.
pub open spec fn spec_stage(s: Seq<IndexEntryView>, e: IndexEntryView) -> Seq<IndexEntryView>
    decreases s.len(),
{
    if s.len() == 0 {
        seq![e]
    } else if s[0].path == e.path {
        seq![e] + s.drop_first()
    } else {
        seq![s[0]] + spec_stage(s.drop_first(), e)
    }
}

/// The index entry staging a working file produces.
pub open spec fn staged_entry(f: WorkFileView) -> IndexEntryView {
    IndexEntryView { hash: sha256_hex(f.content), mode: file_mode(), path: f.path }
}

/// Staging each file in turn, first to last.
pub open spec fn spec_add(s: Seq<IndexEntryView>, fs: Seq<WorkFileView>) -> Seq<IndexEntryView>
    decreases fs.len(),
{
    if fs.len() == 0 {
        s
    } else {
        spec_add(spec_stage(s, staged_entry(fs[0])), fs.drop_first())
    }
}

/// Staging is idempotent: staging the same entry twice leaves the index as
/// one staging left it, byte for byte.
pub proof fn lemma_stage_idempotent(s: Seq<IndexEntryView>, e: IndexEntryView)
    ensures
        spec_stage(spec_stage(s, e), e) == spec_stage(s, e),
    decreases s.len(),
{
    if s.len() == 0 {
        assert(spec_stage(spec_stage(s, e), e) =~= spec_stage(s, e));
    } else if s[0].path == e.path {
        let u = seq![e] + s.drop_first();
        assert(u[0] == e);
        assert(u.drop_first() =~= s.drop_first());
        assert(spec_stage(u, e) =~= u);
    } else {
        let u = seq![s[0]] + spec_stage(s.drop_first(), e);
        assert(u[0] == s[0]);
        assert(u.drop_first() =~= spec_stage(s.drop_first(), e));
        lemma_stage_idempotent(s.drop_first(), e);
        assert(spec_stage(u, e) =~= u);
    }
}

/// Where the staged path exists, `spec_stage` replaces its entry in place.
proof fn lemma_stage_at(s: Seq<IndexEntryView>, e: IndexEntryView, i: int)
    requires
        forall|a: int, b: int| 0 <= a < b < s.len() ==> s[a].path != s[b].path,
        0 <= i < s.len(),
        s[i].path == e.path,
    ensures
        spec_stage(s, e) == s.update(i, e),
    decreases s.len(),
{
    if i == 0 {
        assert(spec_stage(s, e) =~= s.update(0, e));
    } else {
        assert(s[0].path != e.path);
        assert(s.drop_first()[i - 1] == s[i]);
        lemma_stage_at(s.drop_first(), e, i - 1);
        assert(spec_stage(s, e) =~= s.update(i, e));
    }
}

/// Where the staged path is new, `spec_stage` appends the entry.
proof fn lemma_stage_append(s: Seq<IndexEntryView>, e: IndexEntryView)
    requires
        forall|k: int| 0 <= k < s.len() ==> s[k].path != e.path,
    ensures
        spec_stage(s, e) == s + seq![e],
    decreases s.len(),
{
    if s.len() == 0 {
        assert(spec_stage(s, e) =~= s + seq![e]);
    } else {
        lemma_stage_append(s.drop_first(), e);
        assert(spec_stage(s, e) =~= s + seq![e]);
    }
}

/// Staging keeps paths pairwise distinct.
pub proof fn lemma_stage_wf(s: Seq<IndexEntryView>, e: IndexEntryView)
    requires
        forall|a: int, b: int| 0 <= a < b < s.len() ==> s[a].path != s[b].path,
    ensures
        forall|a: int, b: int|
            0 <= a < b < spec_stage(s, e).len() ==> spec_stage(s, e)[a].path != spec_stage(
                s,
                e,
            )[b].path,
{
    if exists|i: int| 0 <= i < s.len() && s[i].path == e.path {
        let i = choose|i: int| 0 <= i < s.len() && s[i].path == e.path;
        lemma_stage_at(s, e, i);
        let u = s.update(i, e);
        assert forall|a: int, b: int| 0 <= a < b < u.len() implies u[a].path != u[b].path by {
            if a != i && b != i {
                assert(s[a].path != s[b].path);
            } else if a == i {
                assert(s[b].path != e.path) by {
                    if s[b].path == e.path {
                        assert(s[i].path == s[b].path);
                    }
                }
            } else {
                assert(s[a].path != e.path) by {
                    if s[a].path == e.path {
                        if a < i {
                            assert(s[a].path != s[i].path);
                        } else if i < a {
                            assert(s[i].path != s[a].path);
                        }
                    }
                }
            }
        }
    } else {
        lemma_stage_append(s, e);
        let u = s + seq![e];
        assert forall|a: int, b: int| 0 <= a < b < u.len() implies u[a].path != u[b].path by {
            if b < s.len() {
                assert(s[a].path != s[b].path);
            } else {
                assert(u[b] == e);
                assert(s[a].path != e.path);
            }
        }
    }
}

/// Stages one file: stores its content as a blob and points the entry for
/// `relative_path` at the digest, with the fixed regular-file mode.
pub fn add_file_to_index(
    index: &mut Index,
    object_store: &mut ObjectStore,
    content: &[u8],
    relative_path: &str,
) -> (r: Result<String, GitError>)
    requires
        old(index).wf(),
        old(object_store).wf(),
    ensures
        final(index).wf(),
        final(object_store).wf(),
        final(object_store).objects_dir == old(object_store).objects_dir,
        r matches Ok(h) && h@ == sha256_hex(content@),
        final(index)@ == spec_stage(
            old(index)@,
            IndexEntryView { hash: sha256_hex(content@), mode: file_mode(), path: relative_path@ },
        ),
        final(object_store)@ == old(object_store)@.insert(
            sha256_hex(content@),
            final(object_store)@[sha256_hex(content@)],
        ),
        zlib_inflate(final(object_store)@[sha256_hex(content@)]) == Some(
            enc_blob(BlobView { hash: sha256_hex(content@), content: content@ }),
        ),
{
    let hash = match object_store.store_blob(content) {
        Ok(h) => h,
        Err(_) => {
            proof {
                assert(false);
            }
            return Err(GitError::Io);
        },
    };
    let entry = IndexEntry {
        hash: hash.clone(),
        mode: "100644".to_owned(),
        path: relative_path.to_owned(),
    };
    let ghost s0 = index@;
    let key = relative_path.to_owned();
    match index.find(&key) {
        Some(i) => {
            proof {
                let bv = index@;
                let w = choose|k: int| 0 <= k < bv.len() && bv[k].path == relative_path@;
                assert(bv[w].path == relative_path@);
                lemma_stage_at(s0, entry@, i as int);
                assert(index.entries@.update(i as int, entry).map_values(|x: IndexEntry| x@)
                    =~= s0.update(i as int, entry@));
                lemma_stage_wf(s0, entry@);
            }
            index.entries.set(i, entry);
        },
        None => {
            proof {
                lemma_stage_append(s0, entry@);
                assert(index.entries@.push(entry).map_values(|x: IndexEntry| x@) =~= s0.push(
                    entry@,
                ));
                assert(s0.push(entry@) =~= s0 + seq![entry@]);
                lemma_stage_wf(s0, entry@);
            }
            index.entries.push(entry);
        },
    }
    Ok(hash)
}

/// Stages a batch of files, first to last: the caller's directory scan
/// hands over the (relative path, content) pairs; each is stored as a blob
/// and staged in order.
pub fn add(index: &mut Index, object_store: &mut ObjectStore, files: &Vec<WorkFile>) -> (r: Result<
    (),
    GitError,
>)
    requires
        old(index).wf(),
        old(object_store).wf(),
    ensures
        final(index).wf(),
        final(object_store).wf(),
        final(object_store).objects_dir == old(object_store).objects_dir,
        r is Ok,
        final(index)@ == spec_add(old(index)@, files@.map_values(|f: WorkFile| f@)),
        forall|i: int|
            0 <= i < files@.len() ==> final(object_store)@.contains_key(
                sha256_hex(#[trigger] files@[i]@.content),
            ),
        forall|k: Seq<char>|
            old(object_store)@.contains_key(k) ==> final(object_store)@.contains_key(k),
{
    let ghost fs = files@.map_values(|f: WorkFile| f@);
    let mut i: usize = 0;
    proof {
        assert(fs.skip(0) =~= fs);
    }
    while i < files.len()
        invariant
            i <= fs.len(),
            fs == files@.map_values(|f: WorkFile| f@),
            index.wf(),
            object_store.wf(),
            object_store.objects_dir == old(object_store).objects_dir,
            spec_add(index@, fs.skip(i as int)) == spec_add(old(index)@, fs),
            forall|j: int|
                0 <= j < i ==> object_store@.contains_key(sha256_hex(#[trigger] fs[j].content)),
            forall|k: Seq<char>|
                old(object_store)@.contains_key(k) ==> object_store@.contains_key(k),
        decreases fs.len() - i,
    {
        let f = &files[i];
        let ghost pre = index@;
        let ghost prestore = object_store@;
        let res = add_file_to_index(index, object_store, f.content.as_slice(), f.path.as_str());
        proof {
            assert(fs.skip(i as int)[0] == fs[i as int]);
            assert(fs.skip(i as int).drop_first() =~= fs.skip(i as int + 1));
            assert(index@ == spec_stage(pre, staged_entry(fs[i as int])));
            assert(spec_add(pre, fs.skip(i as int)) == spec_add(index@, fs.skip(i as int + 1)));
        }
        i += 1;
    }
    proof {
        assert(fs.skip(fs.len() as int) =~= Seq::<WorkFileView>::empty());
        assert forall|j: int| 0 <= j < files@.len() implies object_store@.contains_key(
            sha256_hex(#[trigger] files@[j]@.content),
        ) by {
            assert(fs[j] == files@[j]@);
            assert(object_store@.contains_key(sha256_hex(fs[j].content)));
        }
    }
    Ok(())
}

} // verus!
