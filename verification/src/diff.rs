//! Staged-versus-working diff: an anchor diff that finds the common
//! leading run and the common trailing run of the line lists and shows
//! exactly the lines strictly between them, staged lines as removed and
//! current lines as added.

use vstd::prelude::*;
use crate::errors::GitError;
use crate::hashing::sha256_hex;
use crate::lines::{lines_of, split_lines};
use crate::codec::{enc_blob, str_fits};
use crate::compress::zlib_inflate;
use crate::object_store::{lemma_store_load_blob, spec_load_blob, ObjectStore};
use crate::strutil::{bytes_to_string_lossy, utf8_lossy};
use crate::types::{BlobView, Index, IndexEntryView, WorkFile, WorkFileView};

verus! {

/// The length of the common leading run of two line lists.
pub open spec fn lcp(a: Seq<Seq<char>>, b: Seq<Seq<char>>) -> nat
    decreases a.len(),
{
    if a.len() == 0 || b.len() == 0 {
        0
    } else if a[0] == b[0] {
        (1 + lcp(a.drop_first(), b.drop_first())) as nat
    } else {
        0
    }
}

/// The length of the common trailing run, counted independently of the
/// leading run but never past `bound`, so the two runs cannot overlap.
pub open spec fn suffix_run(a: Seq<Seq<char>>, b: Seq<Seq<char>>, bound: int) -> nat
    decreases a.len(),
{
    if bound <= 0 || a.len() == 0 || b.len() == 0 {
        0
    } else if a.last() == b.last() {
        (1 + suffix_run(a.drop_last(), b.drop_last(), bound - 1)) as nat
    } else {
        0
    }
}

pub proof fn lemma_lcp_le(a: Seq<Seq<char>>, b: Seq<Seq<char>>)
    ensures
        lcp(a, b) <= a.len(),
        lcp(a, b) <= b.len(),
    decreases a.len(),
{
    if a.len() == 0 || b.len() == 0 {
    } else if a[0] == b[0] {
        lemma_lcp_le(a.drop_first(), b.drop_first());
    }
}

pub proof fn lemma_suffix_run_le(a: Seq<Seq<char>>, b: Seq<Seq<char>>, bound: int)
    ensures
        suffix_run(a, b, bound) <= a.len(),
        suffix_run(a, b, bound) <= b.len(),
        bound >= 0 ==> suffix_run(a, b, bound) <= bound,
    decreases a.len(),
{
    if bound <= 0 || a.len() == 0 || b.len() == 0 {
    } else if a.last() == b.last() {
        lemma_suffix_run_le(a.drop_last(), b.drop_last(), bound - 1);
    }
}

/// The anchor bound: the leading run plus the trailing run never exceeds
/// either line list, so no line is counted as both removed and added.
pub open spec fn anchors_of(a: Seq<Seq<char>>, b: Seq<Seq<char>>) -> (int, int) {
    let cs = lcp(a, b) as int;
    let bound = if a.len() <= b.len() {
        a.len() as int - cs
    } else {
        b.len() as int - cs
    };
    let ce = suffix_run(a, b, bound) as int;
    (cs, ce)
}

/// What an anchor diff of two line lists shows: the staged lines strictly
/// between the runs as removed, the current ones as added.
pub open spec fn spec_line_diff(a: Seq<Seq<char>>, b: Seq<Seq<char>>) -> (
    Seq<Seq<char>>,
    Seq<Seq<char>>,
) {
    let (cs, ce) = anchors_of(a, b);
    (a.subrange(cs, a.len() - ce), b.subrange(cs, b.len() - ce))
}

/// The two anchor runs never overlap: together they never exceed either
/// side, so no line is shown as both removed and added.
pub proof fn lemma_anchors_no_overlap(a: Seq<Seq<char>>, b: Seq<Seq<char>>)
    ensures
        ({
            let (cs, ce) = anchors_of(a, b);
            &&& 0 <= cs
            &&& 0 <= ce
            &&& cs + ce <= a.len()
            &&& cs + ce <= b.len()
        }),
{
    lemma_lcp_le(a, b);
    let cs = lcp(a, b) as int;
    let bound = if a.len() <= b.len() {
        a.len() as int - cs
    } else {
        b.len() as int - cs
    };
    lemma_suffix_run_le(a, b, bound);
}

/// Computes the anchor diff of two line lists.
#[verifier::loop_isolation(false)]
#[verifier::rlimit(60)]
pub fn line_diff(staged: &Vec<String>, current: &Vec<String>) -> (r: (Vec<String>, Vec<String>))
    ensures
        ({
            let sv = staged@.map_values(|l: String| l@);
            let cv = current@.map_values(|l: String| l@);
            let d = spec_line_diff(sv, cv);
            r.0@.map_values(|l: String| l@) == d.0 && r.1@.map_values(|l: String| l@) == d.1
        }),
{
    let ghost sv = staged@.map_values(|l: String| l@);
    let ghost cv = current@.map_values(|l: String| l@);
    let slen = staged.len();
    let clen = current.len();
    let min: usize = if slen <= clen {
        slen
    } else {
        clen
    };
    let mut cs: usize = 0;
    proof {
        assert(sv.skip(0) =~= sv);
        assert(cv.skip(0) =~= cv);
    }
    while cs < min && staged[cs] == current[cs]
        invariant
            cs <= min,
            lcp(sv, cv) == cs + lcp(sv.skip(cs as int), cv.skip(cs as int)),
        decreases min - cs,
    {
        proof {
            assert(sv.skip(cs as int)[0] == sv[cs as int]);
            assert(cv.skip(cs as int)[0] == cv[cs as int]);
            assert(sv.skip(cs as int).drop_first() =~= sv.skip(cs as int + 1));
            assert(cv.skip(cs as int).drop_first() =~= cv.skip(cs as int + 1));
        }
        cs += 1;
    }
    proof {
        if cs < min {
            assert(sv.skip(cs as int)[0] != cv.skip(cs as int)[0]);
            assert(lcp(sv.skip(cs as int), cv.skip(cs as int)) == 0);
        } else {
            assert(sv.skip(cs as int).len() == 0 || cv.skip(cs as int).len() == 0);
            assert(lcp(sv.skip(cs as int), cv.skip(cs as int)) == 0);
        }
        assert(lcp(sv, cv) == cs);
    }
    let bound: usize = min - cs;
    let mut ce: usize = 0;
    proof {
        assert(sv.take(slen - 0) =~= sv);
        assert(cv.take(clen - 0) =~= cv);
    }
    while ce < bound && staged[slen - 1 - ce] == current[clen - 1 - ce]
        invariant
            ce <= bound,
            suffix_run(sv, cv, bound as int) == ce + suffix_run(
                sv.take(slen - ce),
                cv.take(clen - ce),
                bound - ce,
            ),
        decreases bound - ce,
    {
        proof {
            let ta = sv.take(slen - ce);
            let tb = cv.take(clen - ce);
            assert(ta.last() == sv[slen - 1 - ce]);
            assert(tb.last() == cv[clen - 1 - ce]);
            assert(ta.drop_last() =~= sv.take(slen - (ce + 1)));
            assert(tb.drop_last() =~= cv.take(clen - (ce + 1)));
        }
        ce += 1;
    }
    proof {
        let ta = sv.take(slen - ce);
        let tb = cv.take(clen - ce);
        if ce < bound {
            assert(ta.last() == sv[slen - 1 - ce]);
            assert(tb.last() == cv[clen - 1 - ce]);
            assert(suffix_run(ta, tb, bound - ce) == 0);
        } else {
            assert(suffix_run(ta, tb, bound - ce) == 0);
        }
        assert(suffix_run(sv, cv, bound as int) == ce);
    }
    let mut removed: Vec<String> = Vec::new();
    let mut i: usize = cs;
    while i < slen - ce
        invariant
            cs <= i <= slen - ce,
            ce <= slen,
            removed@.map_values(|l: String| l@) =~= sv.subrange(cs as int, i as int),
        decreases slen - ce - i,
    {
        let ghost acc = removed@.map_values(|l: String| l@);
        removed.push(staged[i].clone());
        proof {
            assert(removed@.map_values(|l: String| l@) =~= acc.push(sv[i as int]));
            assert(acc.push(sv[i as int]) =~= sv.subrange(cs as int, i as int + 1));
        }
        i += 1;
    }
    let mut added: Vec<String> = Vec::new();
    let mut j: usize = cs;
    while j < clen - ce
        invariant
            cs <= j <= clen - ce,
            ce <= clen,
            added@.map_values(|l: String| l@) =~= cv.subrange(cs as int, j as int),
        decreases clen - ce - j,
    {
        let ghost acc = added@.map_values(|l: String| l@);
        added.push(current[j].clone());
        proof {
            assert(added@.map_values(|l: String| l@) =~= acc.push(cv[j as int]));
            assert(acc.push(cv[j as int]) =~= cv.subrange(cs as int, j as int + 1));
        }
        j += 1;
    }
    (removed, added)
}

/// What one path's diff showed.
#[derive(Debug, Clone)]
pub enum FileDiff {
    /// The path is not staged, so there is nothing to compare against.
    NotTracked,
    /// The working file's content hashes to the staged digest.
    Unchanged,
    /// The file is gone from the working directory: every staged line is
    /// removed, none added.
    Deleted { removed: Vec<String> },
    /// The file differs: the lines between the common runs, staged as
    /// removed and current as added.
    Changed { removed: Vec<String>, added: Vec<String> },
}

pub ghost enum FileDiffView {
    NotTracked,
    Unchanged,
    Deleted { removed: Seq<Seq<char>> },
    Changed { removed: Seq<Seq<char>>, added: Seq<Seq<char>> },
}

impl View for FileDiff {
    type V = FileDiffView;

    open spec fn view(&self) -> FileDiffView {
        match self {
            FileDiff::NotTracked => FileDiffView::NotTracked,
            FileDiff::Unchanged => FileDiffView::Unchanged,
            FileDiff::Deleted { removed } => FileDiffView::Deleted {
                removed: removed@.map_values(|l: String| l@),
            },
            FileDiff::Changed { removed, added } => FileDiffView::Changed {
                removed: removed@.map_values(|l: String| l@),
                added: added@.map_values(|l: String| l@),
            },
        }
    }
}

/// What diffing one staged entry against the working file yields: nothing
/// to show when untracked or unchanged; every staged line removed when the
/// file is gone; else the anchor diff of the two texts, read leniently
/// from the bytes.
pub open spec fn spec_file_diff(
    m: Map<Seq<char>, Seq<u8>>,
    entry: Option<IndexEntryView>,
    current: Option<Seq<u8>>,
) -> Result<FileDiffView, GitError> {
    match entry {
        None => Ok(FileDiffView::NotTracked),
        Some(e) => match current {
            None => match spec_load_blob(m, e.hash) {
                Err(err) => Err(err),
                Ok(bv) => Ok(
                    FileDiffView::Deleted { removed: lines_of(utf8_lossy(bv.content)) },
                ),
            },
            Some(c) => if sha256_hex(c) == e.hash {
                Ok(FileDiffView::Unchanged)
            } else {
                match spec_load_blob(m, e.hash) {
                    Err(err) => Err(err),
                    Ok(bv) => {
                        let d = spec_line_diff(
                            lines_of(utf8_lossy(bv.content)),
                            lines_of(utf8_lossy(c)),
                        );
                        Ok(FileDiffView::Changed { removed: d.0, added: d.1 })
                    },
                }
            },
        },
    }
}

/// The staged entry under a path, if any.
pub open spec fn spec_entry_lookup(ix: Index, p: Seq<char>) -> Option<IndexEntryView> {
    if ix.has_path(p) {
        Some(ix.entry_for(p))
    } else {
        None
    }
}

/// Diffs one staged path against the bytes the working directory holds for
/// it, `None` where the file is gone.
pub fn show_file_diff(
    store: &ObjectStore,
    index: &Index,
    path: &String,
    current: Option<&Vec<u8>>,
) -> (r: Result<FileDiff, GitError>)
    requires
        store.wf(),
        index.wf(),
    ensures
        ({
            let cur = match current {
                Some(c) => Some(c@),
                None => None,
            };
            match r {
                Ok(d) => spec_file_diff(store@, spec_entry_lookup(*index, path@), cur) == Ok::<
                    FileDiffView,
                    GitError,
                >(d@),
                Err(e) => spec_file_diff(store@, spec_entry_lookup(*index, path@), cur) == Err::<
                    FileDiffView,
                    GitError,
                >(e),
            }
        }),
{
    let idx = match index.find(path) {
        Some(i) => i,
        None => {
            return Ok(FileDiff::NotTracked);
        },
    };
    proof {
        let bv = index@;
        let w = choose|k: int| 0 <= k < bv.len() && bv[k].path == path@;
        assert(bv[w].path == path@);
        assert(w == idx as int);
        assert(spec_entry_lookup(*index, path@) == Some(bv[idx as int]));
    }
    let entry = &index.entries[idx];
    match current {
        None => {
            match store.load_blob(entry.hash.as_str()) {
                Ok(b) => {
                    let text = bytes_to_string_lossy(b.content.as_slice());
                    let removed = split_lines(text.as_str());
                    Ok(FileDiff::Deleted { removed })
                },
                Err(e) => Err(e),
            }
        },
        Some(c) => {
            let current_hash = ObjectStore::hash_content(c.as_slice());
            if current_hash == entry.hash {
                Ok(FileDiff::Unchanged)
            } else {
                match store.load_blob(entry.hash.as_str()) {
                    Ok(b) => {
                        let staged_text = bytes_to_string_lossy(b.content.as_slice());
                        let current_text = bytes_to_string_lossy(c.as_slice());
                        let staged_lines = split_lines(staged_text.as_str());
                        let current_lines = split_lines(current_text.as_str());
                        let (removed, added) = line_diff(&staged_lines, &current_lines);
                        Ok(FileDiff::Changed { removed, added })
                    },
                    Err(e) => Err(e),
                }
            }
        },
    }
}

/// The bytes the working directory holds under a path: the first scan
/// entry with that path, if any.
pub open spec fn spec_work_lookup(ws: Seq<WorkFileView>, p: Seq<char>) -> Option<Seq<u8>>
    decreases ws.len(),
{
    if ws.len() == 0 {
        None
    } else if ws[0].path == p {
        Some(ws[0].content)
    } else {
        spec_work_lookup(ws.drop_first(), p)
    }
}

/// Position of the first working file under `path`, if any.
pub fn work_lookup(working: &Vec<WorkFile>, path: &String) -> (r: Option<usize>)
    ensures
        ({
            let ws = working@.map_values(|f: WorkFile| f@);
            match r {
                Some(i) => i < ws.len() && ws[i as int].path == path@ && spec_work_lookup(
                    ws,
                    path@,
                ) == Some(ws[i as int].content),
                None => spec_work_lookup(ws, path@) is None,
            }
        }),
{
    let ghost ws = working@.map_values(|f: WorkFile| f@);
    let mut i: usize = 0;
    proof {
        assert(ws.skip(0) =~= ws);
    }
    while i < working.len()
        invariant
            i <= ws.len(),
            ws == working@.map_values(|f: WorkFile| f@),
            forall|j: int| 0 <= j < i ==> ws[j].path != path@,
            spec_work_lookup(ws.skip(i as int), path@) == spec_work_lookup(ws, path@),
        decreases ws.len() - i,
    {
        proof {
            assert(ws.skip(i as int)[0] == ws[i as int]);
            assert(ws.skip(i as int).drop_first() =~= ws.skip(i as int + 1));
        }
        if working[i].path == *path {
            return Some(i);
        }
        i += 1;
    }
    proof {
        assert(ws.skip(i as int).len() == 0);
    }
    None
}

/// The per-path results a diff over a path list yields, in order, the
/// first failure surfacing.
pub open spec fn spec_diff_paths(
    m: Map<Seq<char>, Seq<u8>>,
    ix: Index,
    ws: Seq<WorkFileView>,
    paths: Seq<Seq<char>>,
) -> Result<Seq<FileDiffView>, GitError>
    decreases paths.len(),
{
    if paths.len() == 0 {
        Ok(Seq::empty())
    } else {
        match spec_file_diff(m, spec_entry_lookup(ix, paths[0]), spec_work_lookup(ws, paths[0])) {
            Err(e) => Err(e),
            Ok(d) => match spec_diff_paths(m, ix, ws, paths.drop_first()) {
                Err(e) => Err(e),
                Ok(rest) => Ok(seq![d] + rest),
            },
        }
    }
}

/// Diffs the named paths — or, given none, every staged path in staging
/// order — against the working files the caller scanned. A named path that
/// is not staged shows as `NotTracked` rather than failing.
#[verifier::loop_isolation(false)]
pub fn diff(
    store: &ObjectStore,
    index: &Index,
    files: &Vec<String>,
    working: &Vec<WorkFile>,
) -> (r: Result<Vec<(String, FileDiff)>, GitError>)
    requires
        store.wf(),
        index.wf(),
    ensures
        ({
            let paths = if files@.len() == 0 {
                index@.map_values(|e: IndexEntryView| e.path)
            } else {
                files@.map_values(|f: String| f@)
            };
            let ws = working@.map_values(|f: WorkFile| f@);
            match r {
                Ok(ds) => ds@.len() == paths.len() && (forall|i: int|
                    0 <= i < ds@.len() ==> (#[trigger] ds@[i]).0@ == paths[i]) && spec_diff_paths(
                    store@,
                    *index,
                    ws,
                    paths,
                ) == Ok::<Seq<FileDiffView>, GitError>(
                    ds@.map_values(|d: (String, FileDiff)| d.1@),
                ),
                Err(e) => spec_diff_paths(store@, *index, ws, paths) == Err::<
                    Seq<FileDiffView>,
                    GitError,
                >(e),
            }
        }),
{
    let mut paths: Vec<String> = Vec::new();
    if files.len() == 0 {
        let mut k: usize = 0;
        while k < index.entries.len()
            invariant
                k <= index@.len(),
                paths@.map_values(|p: String| p@) =~= index@.map_values(
                    |e: IndexEntryView| e.path,
                ).take(k as int),
            decreases index@.len() - k,
        {
            let ghost acc = paths@.map_values(|p: String| p@);
            paths.push(index.entries[k].path.clone());
            proof {
                let full = index@.map_values(|e: IndexEntryView| e.path);
                assert(paths@.map_values(|p: String| p@) =~= acc.push(full[k as int]));
                assert(acc.push(full[k as int]) =~= full.take(k as int + 1));
            }
            k += 1;
        }
        proof {
            let full = index@.map_values(|e: IndexEntryView| e.path);
            assert(full.take(full.len() as int) =~= full);
        }
    } else {
        let mut k: usize = 0;
        while k < files.len()
            invariant
                k <= files@.len(),
                paths@.map_values(|p: String| p@) =~= files@.map_values(|f: String| f@).take(
                    k as int,
                ),
            decreases files@.len() - k,
        {
            let ghost acc = paths@.map_values(|p: String| p@);
            paths.push(files[k].clone());
            proof {
                let full = files@.map_values(|f: String| f@);
                assert(paths@.map_values(|p: String| p@) =~= acc.push(full[k as int]));
                assert(acc.push(full[k as int]) =~= full.take(k as int + 1));
            }
            k += 1;
        }
        proof {
            let full = files@.map_values(|f: String| f@);
            assert(full.take(full.len() as int) =~= full);
        }
    }
    let ghost pv = paths@.map_values(|p: String| p@);
    let ghost ws = working@.map_values(|f: WorkFile| f@);
    let mut out: Vec<(String, FileDiff)> = Vec::new();
    let mut i: usize = 0;
    proof {
        assert(pv.skip(0) =~= pv);
        let d0 = spec_diff_paths(store@, *index, ws, pv);
        if d0 is Ok {
            assert(Seq::<FileDiffView>::empty() + d0->Ok_0 =~= d0->Ok_0);
        }
        assert(out@.map_values(|d: (String, FileDiff)| d.1@) =~= Seq::<FileDiffView>::empty());
    }
    while i < paths.len()
        invariant
            i <= pv.len(),
            pv == paths@.map_values(|p: String| p@),
            ws == working@.map_values(|f: WorkFile| f@),
            out@.len() == i,
            forall|j: int| 0 <= j < i ==> (#[trigger] out@[j]).0@ == pv[j],
            match spec_diff_paths(store@, *index, ws, pv.skip(i as int)) {
                Ok(rest) => spec_diff_paths(store@, *index, ws, pv) == Ok::<
                    Seq<FileDiffView>,
                    GitError,
                >(out@.map_values(|d: (String, FileDiff)| d.1@) + rest),
                Err(e) => spec_diff_paths(store@, *index, ws, pv) == Err::<
                    Seq<FileDiffView>,
                    GitError,
                >(e),
            },
        decreases pv.len() - i,
    {
        let p = paths[i].clone();
        proof {
            assert(pv.skip(i as int)[0] == pv[i as int]);
            assert(pv.skip(i as int).drop_first() =~= pv.skip(i as int + 1));
        }
        let cur_idx = work_lookup(working, &p);
        let d = match cur_idx {
            Some(w) => show_file_diff(store, index, &p, Some(&working[w].content)),
            None => show_file_diff(store, index, &p, None),
        };
        match d {
            Ok(fd) => {
                proof {
                    let acc = out@.map_values(|x: (String, FileDiff)| x.1@);
                    assert(out@.push((p, fd)).map_values(|x: (String, FileDiff)| x.1@) =~= acc.push(
                        fd@,
                    ));
                    assert(acc.push(fd@) =~= acc + seq![fd@]);
                    let sub = spec_diff_paths(store@, *index, ws, pv.skip(i as int + 1));
                    if sub is Ok {
                        assert(acc + (seq![fd@] + sub->Ok_0) =~= (acc + seq![fd@]) + sub->Ok_0);
                    }
                }
                out.push((p, fd));
                i += 1;
            },
            Err(e) => {
                return Err(e);
            },
        }
    }
    proof {
        assert(pv.skip(pv.len() as int) =~= Seq::<Seq<char>>::empty());
        let acc = out@.map_values(|d: (String, FileDiff)| d.1@);
        assert(acc + Seq::<FileDiffView>::empty() =~= acc);
    }
    Ok(out)
}

/// Diffing right after staging shows nothing: the staged digest is the
/// digest of the very content the working file still holds.
pub proof fn lemma_diff_after_stage_unchanged(
    m: Map<Seq<char>, Seq<u8>>,
    mode: Seq<char>,
    path: Seq<char>,
    content: Seq<u8>,
)
    ensures
        spec_file_diff(
            m,
            Some(IndexEntryView { hash: sha256_hex(content), mode, path }),
            Some(content),
        ) == Ok::<FileDiffView, GitError>(FileDiffView::Unchanged),
{
}

/// Diffing a staged file that is gone from disk shows every staged line as
/// removed and none as added, whatever else the store holds.
pub proof fn lemma_diff_deleted_shows_all_staged(
    m: Map<Seq<char>, Seq<u8>>,
    e: IndexEntryView,
    removed: Seq<Seq<char>>,
)
    requires
        spec_file_diff(m, Some(e), None) == Ok::<FileDiffView, GitError>(
            FileDiffView::Deleted { removed },
        ),
    ensures
        spec_load_blob(m, e.hash) matches Ok(bv) && removed == lines_of(utf8_lossy(bv.content)),
{
}

/// Staging a file and then deleting it from disk makes the diff show the
/// staged content itself, every line removed and none added: the staged
/// digest is the content's digest, and the store maps it to that very
/// content's blob — exactly what staging leaves behind.
pub proof fn lemma_diff_after_stage_then_delete(
    m: Map<Seq<char>, Seq<u8>>,
    mode: Seq<char>,
    path: Seq<char>,
    content: Seq<u8>,
)
    requires
        m.contains_key(sha256_hex(content)),
        zlib_inflate(m[sha256_hex(content)]) == Some(
            enc_blob(BlobView { hash: sha256_hex(content), content }),
        ),
        str_fits(sha256_hex(content)),
        content.len() <= u64::MAX,
    ensures
        spec_file_diff(m, Some(IndexEntryView { hash: sha256_hex(content), mode, path }), None)
            == Ok::<FileDiffView, GitError>(
            FileDiffView::Deleted { removed: lines_of(utf8_lossy(content)) },
        ),
{
    lemma_store_load_blob(
        m,
        sha256_hex(content),
        BlobView { hash: sha256_hex(content), content },
    );
}

} // verus!
