//! The object payload format: a self-describing, length-prefixed binary
//! serialization of blobs, trees, commits and the staging index, written and
//! proved here from first principles. Lengths are 64-bit little-endian;
//! strings are carried as their UTF-8 bytes; each object opens with a one
//! byte kind tag. Decoding accepts exactly the encodings and nothing else,
//! and decoding an encoding gives back the encoded value.

use vstd::prelude::*;
use vstd::bytes::{
    lemma_auto_spec_u64_to_from_le_bytes, spec_u64_from_le_bytes, spec_u64_to_le_bytes,
    u64_from_le_bytes, u64_to_le_bytes,
};
use vstd::slice::{slice_subrange, slice_to_vec};
use vstd::utf8::{
    decode_utf8, encode_utf8, encode_utf8_decode_utf8, encode_utf8_valid_utf8, valid_utf8,
};
use crate::strutil::bytes_to_string;
use crate::types::{
    opt_str_view, Blob, BlobView, Commit, CommitView, Index, IndexEntry, IndexEntryView, Tree,
    TreeEntry, TreeEntryView, TreeView,
};
use crate::errors::GitError;

verus! {

pub const TAG_BLOB: u8 = 66;

pub const TAG_TREE: u8 = 84;

pub const TAG_COMMIT: u8 = 67;

// ---------------------------------------------------------------------------
// Field encodings
// ---------------------------------------------------------------------------
/// A 64-bit length or timestamp, little-endian.
pub open spec fn enc_u64(x: u64) -> Seq<u8> {
    spec_u64_to_le_bytes(x)
}

/// A byte field: its length, then the bytes themselves.
pub open spec fn enc_bytes(b: Seq<u8>) -> Seq<u8>
    recommends
        b.len() <= u64::MAX,
{
    enc_u64(b.len() as u64) + b
}

/// A string field: the byte field holding its UTF-8 encoding.
pub open spec fn enc_str(s: Seq<char>) -> Seq<u8> {
    enc_bytes(encode_utf8(s))
}

/// An optional string field: a presence byte, then the string if present.
pub open spec fn enc_opt_str(s: Option<Seq<char>>) -> Seq<u8> {
    match s {
        None => seq![0u8],
        Some(t) => seq![1u8] + enc_str(t),
    }
}

pub open spec fn enc_bool(b: bool) -> Seq<u8> {
    if b {
        seq![1u8]
    } else {
        seq![0u8]
    }
}

/// Every string a value carries must fit its length prefix.
pub open spec fn str_fits(s: Seq<char>) -> bool {
    encode_utf8(s).len() <= u64::MAX
}

// ---------------------------------------------------------------------------
// Field decodings: each consumes from a position and yields the value and
// the position just past it, or nothing where the bytes are not a valid
// encoding.
// ---------------------------------------------------------------------------
pub open spec fn dec_u64(b: Seq<u8>, pos: int) -> Option<(u64, int)> {
    if 0 <= pos && pos + 8 <= b.len() {
        Some((spec_u64_from_le_bytes(b.subrange(pos, pos + 8)), pos + 8))
    } else {
        None
    }
}

pub open spec fn dec_bytes(b: Seq<u8>, pos: int) -> Option<(Seq<u8>, int)> {
    match dec_u64(b, pos) {
        Some((n, p)) => if p + n <= b.len() {
            Some((b.subrange(p, p + n), p + n))
        } else {
            None
        },
        None => None,
    }
}

pub open spec fn dec_str(b: Seq<u8>, pos: int) -> Option<(Seq<char>, int)> {
    match dec_bytes(b, pos) {
        Some((v, p)) => if valid_utf8(v) {
            Some((decode_utf8(v), p))
        } else {
            None
        },
        None => None,
    }
}

pub open spec fn dec_bool(b: Seq<u8>, pos: int) -> Option<(bool, int)> {
    if 0 <= pos && pos < b.len() && (b[pos] == 0u8 || b[pos] == 1u8) {
        Some((b[pos] == 1u8, pos + 1))
    } else {
        None
    }
}

pub open spec fn dec_opt_str(b: Seq<u8>, pos: int) -> Option<(Option<Seq<char>>, int)> {
    if 0 <= pos && pos < b.len() && b[pos] == 0u8 {
        Some((None, pos + 1))
    } else if 0 <= pos && pos < b.len() && b[pos] == 1u8 {
        match dec_str(b, pos + 1) {
            Some((s, p)) => Some((Some(s), p)),
            None => None,
        }
    } else {
        None
    }
}

// ---------------------------------------------------------------------------
// Round trips, field by field
// ---------------------------------------------------------------------------
pub proof fn lemma_dec_u64_at(b: Seq<u8>, pos: int, x: u64)
    requires
        0 <= pos,
        pos + 8 <= b.len(),
        b.subrange(pos, pos + 8) == enc_u64(x),
    ensures
        dec_u64(b, pos) == Some((x, pos + 8)),
{
    lemma_auto_spec_u64_to_from_le_bytes();
}

pub proof fn lemma_dec_bytes_at(b: Seq<u8>, pos: int, v: Seq<u8>)
    requires
        0 <= pos,
        v.len() <= u64::MAX,
        pos + 8 + v.len() <= b.len(),
        b.subrange(pos, pos + 8 + v.len()) == enc_bytes(v),
    ensures
        dec_bytes(b, pos) == Some((v, pos + 8 + v.len())),
{
    lemma_auto_spec_u64_to_from_le_bytes();
    assert(enc_u64((v.len() as u64)).len() == 8);
    let whole = b.subrange(pos, pos + 8 + v.len());
    assert(b.subrange(pos, pos + 8) =~= whole.subrange(0, 8));
    assert(whole.subrange(0, 8) =~= enc_u64(v.len() as u64));
    lemma_dec_u64_at(b, pos, v.len() as u64);
    assert(b.subrange(pos + 8, pos + 8 + v.len()) =~= whole.subrange(8, 8 + v.len() as int));
    assert(whole.subrange(8, 8 + v.len() as int) =~= v);
}

pub proof fn lemma_dec_str_at(b: Seq<u8>, pos: int, s: Seq<char>)
    requires
        0 <= pos,
        str_fits(s),
        pos + 8 + encode_utf8(s).len() <= b.len(),
        b.subrange(pos, pos + 8 + encode_utf8(s).len()) == enc_str(s),
    ensures
        dec_str(b, pos) == Some((s, pos + 8 + encode_utf8(s).len())),
{
    lemma_dec_bytes_at(b, pos, encode_utf8(s));
    encode_utf8_valid_utf8(s);
    encode_utf8_decode_utf8(s);
}

/// Where a concatenation sits in `b`, each of its two parts sits at its own
/// offset. Used to peel multi-field encodings apart, one field at a time.
pub proof fn lemma_concat_parts(x: Seq<u8>, y: Seq<u8>, b: Seq<u8>, off: int)
    requires
        0 <= off,
        off + x.len() + y.len() <= b.len(),
        b.subrange(off, off + x.len() + y.len()) == x + y,
    ensures
        b.subrange(off, off + x.len() as int) == x,
        b.subrange(off + x.len(), off + x.len() + y.len()) == y,
{
    let w = x + y;
    assert forall|j: int| 0 <= j < x.len() implies b.subrange(off, off + x.len() as int)[j]
        == x[j] by {
        assert(b.subrange(off, off + x.len() + y.len())[j] == w[j]);
    }
    assert(b.subrange(off, off + x.len() as int) =~= x);
    assert forall|j: int| 0 <= j < y.len() implies b.subrange(
        off + x.len(),
        off + x.len() + y.len(),
    )[j] == y[j] by {
        assert(b.subrange(off, off + x.len() + y.len())[x.len() + j] == w[x.len() + j]);
        assert(w[x.len() + j] == y[j]);
    }
    assert(b.subrange(off + x.len(), off + x.len() + y.len()) =~= y);
}

// ---------------------------------------------------------------------------
// Field writers
// ---------------------------------------------------------------------------
pub fn push_u64(buf: &mut Vec<u8>, x: u64)
    ensures
        final(buf)@ == old(buf)@ + enc_u64(x),
{
    let mut tail = u64_to_le_bytes(x);
    buf.append(&mut tail);
}

pub fn push_bytes(buf: &mut Vec<u8>, data: &[u8])
    ensures
        final(buf)@ == old(buf)@ + enc_bytes(data@),
{
    push_u64(buf, data.len() as u64);
    buf.extend_from_slice(data);
    proof {
        assert(final(buf)@ =~= old(buf)@ + enc_bytes(data@));
    }
}

pub fn push_str(buf: &mut Vec<u8>, s: &str)
    ensures
        final(buf)@ == old(buf)@ + enc_str(s@),
        str_fits(s@),
{
    let bs = s.as_bytes();
    let _n = bs.len();
    push_bytes(buf, bs);
}

pub fn push_opt_str(buf: &mut Vec<u8>, s: &Option<String>)
    ensures
        final(buf)@ == old(buf)@ + enc_opt_str(opt_str_view(*s)),
        (s matches Some(t) ==> str_fits(t@)),
{
    match s {
        None => {
            buf.push(0u8);
            proof {
                assert(final(buf)@ =~= old(buf)@ + enc_opt_str(None));
            }
        },
        Some(t) => {
            buf.push(1u8);
            push_str(buf, t.as_str());
            proof {
                assert(final(buf)@ =~= old(buf)@ + enc_opt_str(Some(t@)));
            }
        },
    }
}

pub fn push_bool(buf: &mut Vec<u8>, b: bool)
    ensures
        final(buf)@ == old(buf)@ + enc_bool(b),
{
    buf.push(if b {
        1u8
    } else {
        0u8
    });
    proof {
        assert(final(buf)@ =~= old(buf)@ + enc_bool(b));
    }
}

// ---------------------------------------------------------------------------
// Field readers
// ---------------------------------------------------------------------------
pub fn read_u64(b: &[u8], pos: usize) -> (r: Option<(u64, usize)>)
    ensures
        match r {
            Some((x, p)) => dec_u64(b@, pos as int) == Some((x, p as int)),
            None => dec_u64(b@, pos as int) is None,
        },
{
    if pos <= b.len() && b.len() - pos >= 8 {
        let s = slice_subrange(b, pos, pos + 8);
        Some((u64_from_le_bytes(s), pos + 8))
    } else {
        None
    }
}

pub fn read_bytes<'a>(b: &'a [u8], pos: usize) -> (r: Option<(&'a [u8], usize)>)
    ensures
        match r {
            Some((v, p)) => dec_bytes(b@, pos as int) == Some((v@, p as int)),
            None => dec_bytes(b@, pos as int) is None,
        },
{
    match read_u64(b, pos) {
        Some((n, p)) => {
            if n <= (b.len() - p) as u64 {
                let end = p + (n as usize);
                Some((slice_subrange(b, p, end), end))
            } else {
                None
            }
        },
        None => None,
    }
}

pub fn read_str(b: &[u8], pos: usize) -> (r: Option<(String, usize)>)
    ensures
        match r {
            Some((s, p)) => dec_str(b@, pos as int) == Some((s@, p as int)),
            None => dec_str(b@, pos as int) is None,
        },
{
    match read_bytes(b, pos) {
        Some((v, p)) => match bytes_to_string(v) {
            Some(s) => {
                proof {
                    encode_utf8_valid_utf8(s@);
                    encode_utf8_decode_utf8(s@);
                }
                Some((s, p))
            },
            None => None,
        },
        None => None,
    }
}

pub fn read_bool(b: &[u8], pos: usize) -> (r: Option<(bool, usize)>)
    ensures
        match r {
            Some((x, p)) => dec_bool(b@, pos as int) == Some((x, p as int)),
            None => dec_bool(b@, pos as int) is None,
        },
{
    if pos < b.len() {
        let t = b[pos];
        if t == 0 || t == 1 {
            Some((t == 1, pos + 1))
        } else {
            None
        }
    } else {
        None
    }
}

pub fn read_opt_str(b: &[u8], pos: usize) -> (r: Option<(Option<String>, usize)>)
    ensures
        match r {
            Some((s, p)) => dec_opt_str(b@, pos as int) == Some((opt_str_view(s), p as int)),
            None => dec_opt_str(b@, pos as int) is None,
        },
{
    if pos < b.len() {
        let t = b[pos];
        if t == 0 {
            Some((None, pos + 1))
        } else if t == 1 {
            match read_str(b, pos + 1) {
                Some((s, p)) => Some((Some(s), p)),
                None => None,
            }
        } else {
            None
        }
    } else {
        None
    }
}

// ---------------------------------------------------------------------------
// Blob payloads
// ---------------------------------------------------------------------------
/// The payload of a blob: tag, digest, content bytes.
pub open spec fn enc_blob(b: BlobView) -> Seq<u8> {
    seq![TAG_BLOB] + enc_str(b.hash) + enc_bytes(b.content)
}

pub open spec fn dec_blob(b: Seq<u8>) -> Option<BlobView> {
    if b.len() >= 1 && b[0] == TAG_BLOB {
        match dec_str(b, 1) {
            Some((h, p1)) => match dec_bytes(b, p1) {
                Some((c, p2)) => if p2 == b.len() {
                    Some(BlobView { hash: h, content: c })
                } else {
                    None
                },
                None => None,
            },
            None => None,
        }
    } else {
        None
    }
}

/// Decoding inverts encoding on every blob whose fields fit their length
/// prefixes.
pub proof fn lemma_blob_round_trip(bv: BlobView)
    requires
        str_fits(bv.hash),
        bv.content.len() <= u64::MAX,
    ensures
        dec_blob(enc_blob(bv)) == Some(bv),
{
    lemma_auto_spec_u64_to_from_le_bytes();
    let b = enc_blob(bv);
    let lh: int = 8 + encode_utf8(bv.hash).len() as int;
    assert(b.subrange(1, 1 + lh) =~= enc_str(bv.hash));
    lemma_dec_str_at(b, 1, bv.hash);
    let p1: int = 1 + lh;
    assert(b.subrange(p1, p1 + 8 + bv.content.len()) =~= enc_bytes(bv.content));
    lemma_dec_bytes_at(b, p1, bv.content);
    assert(p1 + 8 + bv.content.len() == b.len());
}

/// Serializes a blob.
pub fn encode_blob(b: &Blob) -> (r: Vec<u8>)
    ensures
        r@ == enc_blob(b@),
        str_fits(b@.hash),
        b@.content.len() <= u64::MAX,
{
    let mut buf: Vec<u8> = Vec::new();
    buf.push(TAG_BLOB);
    push_str(&mut buf, b.hash.as_str());
    let _n = b.content.len();
    push_bytes(&mut buf, b.content.as_slice());
    proof {
        assert(buf@ =~= enc_blob(b@));
    }
    buf
}

/// Deserializes a blob, accepting exactly the blob encodings.
pub fn decode_blob(bytes: &[u8]) -> (r: Result<Blob, GitError>)
    ensures
        match r {
            Ok(b) => dec_blob(bytes@) == Some(b@),
            Err(e) => dec_blob(bytes@) is None && e == GitError::MalformedObject,
        },
{
    if bytes.len() >= 1 && bytes[0] == TAG_BLOB {
        if let Some((hash, p1)) = read_str(bytes, 1) {
            if let Some((content, p2)) = read_bytes(bytes, p1) {
                if p2 == bytes.len() {
                    let c: Vec<u8> = slice_to_vec(content);
                    return Ok(Blob { hash, content: c });
                }
            }
        }
    }
    Err(GitError::MalformedObject)
}

// ---------------------------------------------------------------------------
// Element lists
// ---------------------------------------------------------------------------
/// The concatenation of the encodings of a sequence of elements.
pub open spec fn enc_list<T>(es: Seq<T>, f: spec_fn(T) -> Seq<u8>) -> Seq<u8>
    decreases es.len(),
{
    if es.len() == 0 {
        Seq::empty()
    } else {
        f(es[0]) + enc_list(es.drop_first(), f)
    }
}

pub proof fn lemma_enc_list_push<T>(es: Seq<T>, f: spec_fn(T) -> Seq<u8>, e: T)
    ensures
        enc_list(es.push(e), f) == enc_list(es, f) + f(e),
    decreases es.len(),
{
    let p = es.push(e);
    if es.len() == 0 {
        assert(p[0] == e);
        assert(p.drop_first() =~= Seq::<T>::empty());
        assert(enc_list(p.drop_first(), f) == Seq::<u8>::empty());
        assert(enc_list(es, f) == Seq::<u8>::empty());
        assert(enc_list(p, f) == f(e) + Seq::<u8>::empty());
        assert(enc_list(p, f) =~= enc_list(es, f) + f(e));
    } else {
        assert(p[0] == es[0]);
        assert(p.drop_first() =~= es.drop_first().push(e));
        lemma_enc_list_push(es.drop_first(), f, e);
        assert(enc_list(p, f) == f(es[0]) + enc_list(p.drop_first(), f));
        assert(enc_list(p.drop_first(), f) == enc_list(es.drop_first(), f) + f(e));
        assert(enc_list(p, f) =~= enc_list(es, f) + f(e));
    }
}

/// Decodes exactly `n` elements in a row.
pub open spec fn dec_list<T>(
    b: Seq<u8>,
    pos: int,
    n: nat,
    df: spec_fn(Seq<u8>, int) -> Option<(T, int)>,
) -> Option<(Seq<T>, int)>
    decreases n,
{
    if n == 0 {
        Some((Seq::empty(), pos))
    } else {
        match df(b, pos) {
            Some((e, p)) => match dec_list(b, p, (n - 1) as nat, df) {
                Some((es, p2)) => Some((seq![e] + es, p2)),
                None => None,
            },
            None => None,
        }
    }
}

/// Wherever an element's encoding sits in `b`, its decoder reads exactly
/// that element back.
pub open spec fn decoder_inverts_on<T>(
    b: Seq<u8>,
    es: Seq<T>,
    f: spec_fn(T) -> Seq<u8>,
    df: spec_fn(Seq<u8>, int) -> Option<(T, int)>,
) -> bool {
    forall|p2: int, i: int|
        #![trigger b.subrange(p2, p2 + f(es[i]).len() as int)]
        0 <= i < es.len() && 0 <= p2 && p2 + f(es[i]).len() <= b.len() && b.subrange(
            p2,
            p2 + f(es[i]).len() as int,
        ) == f(es[i]) ==> df(b, p2) == Some((es[i], p2 + f(es[i]).len()))
}

/// Decoding a list inverts encoding it, given that each element's decoder
/// inverts its encoder wherever its encoding sits in `b`.
pub proof fn lemma_dec_list_at<T>(
    b: Seq<u8>,
    pos: int,
    es: Seq<T>,
    f: spec_fn(T) -> Seq<u8>,
    df: spec_fn(Seq<u8>, int) -> Option<(T, int)>,
)
    requires
        0 <= pos,
        pos + enc_list(es, f).len() <= b.len(),
        b.subrange(pos, pos + enc_list(es, f).len()) == enc_list(es, f),
        decoder_inverts_on(b, es, f, df),
    ensures
        dec_list(b, pos, es.len(), df) == Some((es, pos + enc_list(es, f).len())),
    decreases es.len(),
{
    if es.len() == 0 {
    } else {
        let e0 = es[0];
        let le: int = f(e0).len() as int;
        let rest = es.drop_first();
        assert(enc_list(es, f) == f(e0) + enc_list(rest, f));
        lemma_concat_parts(f(e0), enc_list(rest, f), b, pos);
        assert(b.subrange(pos, pos + f(es[0]).len() as int) == f(es[0]));
        assert(df(b, pos) == Some((e0, pos + le)));
        assert forall|p2: int, i: int|
            #![trigger b.subrange(p2, p2 + f(rest[i]).len() as int)]
            0 <= i < rest.len() && 0 <= p2 && p2 + f(rest[i]).len() <= b.len() && b.subrange(
                p2,
                p2 + f(rest[i]).len() as int,
            ) == f(rest[i]) implies df(b, p2) == Some((rest[i], p2 + f(rest[i]).len())) by {
            assert(rest[i] == es[i + 1]);
            assert(b.subrange(p2, p2 + f(es[i + 1]).len() as int) == f(es[i + 1]));
        }
        assert(decoder_inverts_on(b, rest, f, df));
        lemma_dec_list_at(b, pos + le, rest, f, df);
        assert(seq![e0] + rest =~= es);
    }
}

// ---------------------------------------------------------------------------
// Tree payloads
// ---------------------------------------------------------------------------
/// One tree entry: full relative path, file mode, blob digest, file flag.
pub open spec fn enc_tree_entry(e: TreeEntryView) -> Seq<u8> {
    enc_str(e.name) + enc_str(e.mode) + enc_str(e.hash) + enc_bool(e.is_file)
}

pub open spec fn tree_entry_fits(e: TreeEntryView) -> bool {
    str_fits(e.name) && str_fits(e.mode) && str_fits(e.hash)
}

pub open spec fn tree_entries_fit(es: Seq<TreeEntryView>) -> bool {
    forall|i: int| 0 <= i < es.len() ==> tree_entry_fits(#[trigger] es[i])
}

/// The serialized entry list of a tree: the entry count, then each entry.
/// The digest of these bytes is the tree's identity.
pub open spec fn enc_tree_body(es: Seq<TreeEntryView>) -> Seq<u8>
    recommends
        es.len() <= u64::MAX,
{
    enc_u64(es.len() as u64) + enc_list(es, |e: TreeEntryView| enc_tree_entry(e))
}

/// The payload of a tree object: tag, digest, serialized entries.
pub open spec fn enc_tree(t: TreeView) -> Seq<u8> {
    seq![TAG_TREE] + enc_str(t.hash) + enc_tree_body(t.entries)
}

pub open spec fn dec_tree_entry(b: Seq<u8>, pos: int) -> Option<(TreeEntryView, int)> {
    match dec_str(b, pos) {
        Some((name, p1)) => match dec_str(b, p1) {
            Some((mode, p2)) => match dec_str(b, p2) {
                Some((hash, p3)) => match dec_bool(b, p3) {
                    Some((is_file, p4)) => Some((TreeEntryView { mode, hash, name, is_file }, p4)),
                    None => None,
                },
                None => None,
            },
            None => None,
        },
        None => None,
    }
}

pub open spec fn dec_tree(b: Seq<u8>) -> Option<TreeView> {
    if b.len() >= 1 && b[0] == TAG_TREE {
        match dec_str(b, 1) {
            Some((h, p1)) => match dec_u64(b, p1) {
                Some((n, p2)) => match dec_list(
                    b,
                    p2,
                    n as nat,
                    |bb: Seq<u8>, pp: int| dec_tree_entry(bb, pp),
                ) {
                    Some((es, p3)) => if p3 == b.len() {
                        Some(TreeView { hash: h, entries: es })
                    } else {
                        None
                    },
                    None => None,
                },
                None => None,
            },
            None => None,
        }
    } else {
        None
    }
}

pub proof fn lemma_dec_tree_entry_at(b: Seq<u8>, pos: int, e: TreeEntryView)
    requires
        0 <= pos,
        tree_entry_fits(e),
        pos + enc_tree_entry(e).len() <= b.len(),
        b.subrange(pos, pos + enc_tree_entry(e).len()) == enc_tree_entry(e),
    ensures
        dec_tree_entry(b, pos) == Some((e, pos + enc_tree_entry(e).len())),
{
    lemma_auto_spec_u64_to_from_le_bytes();
    let s0 = enc_str(e.name);
    let s1 = enc_str(e.mode);
    let s2 = enc_str(e.hash);
    let s3 = enc_bool(e.is_file);
    assert(enc_tree_entry(e) == s0 + s1 + s2 + s3);
    lemma_concat_parts(s0 + s1 + s2, s3, b, pos);
    lemma_concat_parts(s0 + s1, s2, b, pos);
    lemma_concat_parts(s0, s1, b, pos);
    lemma_dec_str_at(b, pos, e.name);
    let p1 = pos + s0.len() as int;
    lemma_dec_str_at(b, p1, e.mode);
    let p2 = p1 + s1.len() as int;
    lemma_dec_str_at(b, p2, e.hash);
    let p3 = p2 + s2.len() as int;
    assert(b.subrange(p3, p3 + 1)[0] == s3[0]);
    assert(b[p3] == s3[0]);
}

/// Decoding inverts encoding on every tree whose fields fit their length
/// prefixes.
pub proof fn lemma_tree_round_trip(tv: TreeView)
    requires
        str_fits(tv.hash),
        tree_entries_fit(tv.entries),
        tv.entries.len() <= u64::MAX,
    ensures
        dec_tree(enc_tree(tv)) == Some(tv),
{
    lemma_auto_spec_u64_to_from_le_bytes();
    let b = enc_tree(tv);
    let f = |e: TreeEntryView| enc_tree_entry(e);
    let df = |bb: Seq<u8>, pp: int| dec_tree_entry(bb, pp);
    let lh: int = 8 + encode_utf8(tv.hash).len() as int;
    assert(b.subrange(1, 1 + lh) =~= enc_str(tv.hash));
    lemma_dec_str_at(b, 1, tv.hash);
    let p1: int = 1 + lh;
    assert(b.subrange(p1, p1 + 8) =~= enc_u64(tv.entries.len() as u64));
    lemma_dec_u64_at(b, p1, tv.entries.len() as u64);
    let p2: int = p1 + 8;
    assert(b.subrange(p2, p2 + enc_list(tv.entries, f).len()) =~= enc_list(tv.entries, f));
    assert forall|p3: int, i: int|
        #![trigger b.subrange(p3, p3 + f(tv.entries[i]).len() as int)]
        0 <= i < tv.entries.len() && 0 <= p3 && p3 + f(tv.entries[i]).len() <= b.len()
            && b.subrange(p3, p3 + f(tv.entries[i]).len() as int) == f(
            tv.entries[i],
        ) implies df(b, p3) == Some((tv.entries[i], p3 + f(tv.entries[i]).len())) by {
        lemma_dec_tree_entry_at(b, p3, tv.entries[i]);
    }
    assert(decoder_inverts_on(b, tv.entries, f, df));
    lemma_dec_list_at(b, p2, tv.entries, f, df);
    assert(p2 + enc_list(tv.entries, f).len() == b.len());
}

// ---------------------------------------------------------------------------
// Commit payloads
// ---------------------------------------------------------------------------
pub open spec fn commit_fits(c: CommitView) -> bool {
    str_fits(c.hash) && str_fits(c.tree) && str_fits(c.author) && str_fits(c.message) && (match c.parent {
        Some(p) => str_fits(p),
        None => true,
    })
}

/// The payload of a commit object: tag, digest, optional parent digest,
/// tree digest, author, message, timestamp.
pub open spec fn enc_commit(c: CommitView) -> Seq<u8> {
    seq![TAG_COMMIT] + enc_str(c.hash) + enc_opt_str(c.parent) + enc_str(c.tree) + enc_str(c.author)
        + enc_str(c.message) + enc_u64(c.timestamp)
}

pub open spec fn dec_commit(b: Seq<u8>) -> Option<CommitView> {
    if b.len() >= 1 && b[0] == TAG_COMMIT {
        match dec_str(b, 1) {
            Some((h, p1)) => match dec_opt_str(b, p1) {
                Some((parent, p2)) => match dec_str(b, p2) {
                    Some((tree, p3)) => match dec_str(b, p3) {
                        Some((author, p4)) => match dec_str(b, p4) {
                            Some((message, p5)) => match dec_u64(b, p5) {
                                Some((ts, p6)) => if p6 == b.len() {
                                    Some(
                                        CommitView {
                                            hash: h,
                                            parent,
                                            tree,
                                            author,
                                            message,
                                            timestamp: ts,
                                        },
                                    )
                                } else {
                                    None
                                },
                                None => None,
                            },
                            None => None,
                        },
                        None => None,
                    },
                    None => None,
                },
                None => None,
            },
            None => None,
        }
    } else {
        None
    }
}

pub proof fn lemma_dec_opt_str_at(b: Seq<u8>, pos: int, o: Option<Seq<char>>)
    requires
        0 <= pos,
        (o matches Some(t) ==> str_fits(t)),
        pos + enc_opt_str(o).len() <= b.len(),
        b.subrange(pos, pos + enc_opt_str(o).len()) == enc_opt_str(o),
    ensures
        dec_opt_str(b, pos) == Some((o, pos + enc_opt_str(o).len())),
{
    lemma_auto_spec_u64_to_from_le_bytes();
    match o {
        None => {
            assert(b[pos] == enc_opt_str(o)[0]);
        },
        Some(t) => {
            assert(enc_opt_str(o) == seq![1u8] + enc_str(t));
            lemma_concat_parts(seq![1u8], enc_str(t), b, pos);
            assert(b.subrange(pos, pos + 1)[0] == 1u8);
            assert(b[pos] == 1u8);
            lemma_dec_str_at(b, pos + 1, t);
        },
    }
}

/// Decoding inverts encoding on every commit whose fields fit their length
/// prefixes.
pub proof fn lemma_commit_round_trip(cv: CommitView)
    requires
        commit_fits(cv),
    ensures
        dec_commit(enc_commit(cv)) == Some(cv),
{
    lemma_auto_spec_u64_to_from_le_bytes();
    let b = enc_commit(cv);
    let lh: int = 8 + encode_utf8(cv.hash).len() as int;
    assert(b.subrange(1, 1 + lh) =~= enc_str(cv.hash));
    lemma_dec_str_at(b, 1, cv.hash);
    let p1: int = 1 + lh;
    let lp: int = enc_opt_str(cv.parent).len() as int;
    assert(b.subrange(p1, p1 + lp) =~= enc_opt_str(cv.parent));
    lemma_dec_opt_str_at(b, p1, cv.parent);
    let p2: int = p1 + lp;
    let lt: int = 8 + encode_utf8(cv.tree).len() as int;
    assert(b.subrange(p2, p2 + lt) =~= enc_str(cv.tree));
    lemma_dec_str_at(b, p2, cv.tree);
    let p3: int = p2 + lt;
    let la: int = 8 + encode_utf8(cv.author).len() as int;
    assert(b.subrange(p3, p3 + la) =~= enc_str(cv.author));
    lemma_dec_str_at(b, p3, cv.author);
    let p4: int = p3 + la;
    let lm: int = 8 + encode_utf8(cv.message).len() as int;
    assert(b.subrange(p4, p4 + lm) =~= enc_str(cv.message));
    lemma_dec_str_at(b, p4, cv.message);
    let p5: int = p4 + lm;
    assert(b.subrange(p5, p5 + 8) =~= enc_u64(cv.timestamp));
    lemma_dec_u64_at(b, p5, cv.timestamp);
    assert(p5 + 8 == b.len());
}

// ---------------------------------------------------------------------------
// Index payloads
// ---------------------------------------------------------------------------
/// One staged entry: relative path, blob digest, file mode.
pub open spec fn enc_index_entry(e: IndexEntryView) -> Seq<u8> {
    enc_str(e.path) + enc_str(e.hash) + enc_str(e.mode)
}

pub open spec fn index_entry_fits(e: IndexEntryView) -> bool {
    str_fits(e.path) && str_fits(e.hash) && str_fits(e.mode)
}

pub open spec fn index_entries_fit(es: Seq<IndexEntryView>) -> bool {
    forall|i: int| 0 <= i < es.len() ==> index_entry_fits(#[trigger] es[i])
}

/// The staged paths are pairwise distinct.
pub open spec fn index_paths_unique(es: Seq<IndexEntryView>) -> bool {
    forall|i: int, j: int| 0 <= i < j < es.len() ==> es[i].path != es[j].path
}

/// The serialized staging index: the entry count, then each entry.
pub open spec fn enc_index(es: Seq<IndexEntryView>) -> Seq<u8>
    recommends
        es.len() <= u64::MAX,
{
    enc_u64(es.len() as u64) + enc_list(es, |e: IndexEntryView| enc_index_entry(e))
}

pub open spec fn dec_index_entry(b: Seq<u8>, pos: int) -> Option<(IndexEntryView, int)> {
    match dec_str(b, pos) {
        Some((path, p1)) => match dec_str(b, p1) {
            Some((hash, p2)) => match dec_str(b, p2) {
                Some((mode, p3)) => Some((IndexEntryView { hash, mode, path }, p3)),
                None => None,
            },
            None => None,
        },
        None => None,
    }
}

/// Index decoding also refuses duplicate paths: no well-formed writer ever
/// produces them, so they mark a corrupted file.
pub open spec fn dec_index(b: Seq<u8>) -> Option<Seq<IndexEntryView>> {
    match dec_u64(b, 0) {
        Some((n, p1)) => match dec_list(
            b,
            p1,
            n as nat,
            |bb: Seq<u8>, pp: int| dec_index_entry(bb, pp),
        ) {
            Some((es, p2)) => if p2 == b.len() && index_paths_unique(es) {
                Some(es)
            } else {
                None
            },
            None => None,
        },
        None => None,
    }
}

pub proof fn lemma_dec_index_entry_at(b: Seq<u8>, pos: int, e: IndexEntryView)
    requires
        0 <= pos,
        index_entry_fits(e),
        pos + enc_index_entry(e).len() <= b.len(),
        b.subrange(pos, pos + enc_index_entry(e).len()) == enc_index_entry(e),
    ensures
        dec_index_entry(b, pos) == Some((e, pos + enc_index_entry(e).len())),
{
    lemma_auto_spec_u64_to_from_le_bytes();
    let s0 = enc_str(e.path);
    let s1 = enc_str(e.hash);
    let s2 = enc_str(e.mode);
    assert(enc_index_entry(e) == s0 + s1 + s2);
    lemma_concat_parts(s0 + s1, s2, b, pos);
    lemma_concat_parts(s0, s1, b, pos);
    lemma_dec_str_at(b, pos, e.path);
    lemma_dec_str_at(b, pos + s0.len() as int, e.hash);
    lemma_dec_str_at(b, pos + s0.len() + s1.len(), e.mode);
}

/// Decoding inverts encoding on every index with distinct paths whose
/// fields fit their length prefixes.
pub proof fn lemma_index_round_trip(es: Seq<IndexEntryView>)
    requires
        index_entries_fit(es),
        index_paths_unique(es),
        es.len() <= u64::MAX,
    ensures
        dec_index(enc_index(es)) == Some(es),
{
    lemma_auto_spec_u64_to_from_le_bytes();
    let b = enc_index(es);
    let f = |e: IndexEntryView| enc_index_entry(e);
    let df = |bb: Seq<u8>, pp: int| dec_index_entry(bb, pp);
    assert(b.subrange(0, 8) =~= enc_u64(es.len() as u64));
    lemma_dec_u64_at(b, 0, es.len() as u64);
    assert(b.subrange(8, 8 + enc_list(es, f).len() as int) =~= enc_list(es, f));
    assert forall|p3: int, i: int|
        #![trigger b.subrange(p3, p3 + f(es[i]).len() as int)]
        0 <= i < es.len() && 0 <= p3 && p3 + f(es[i]).len() <= b.len() && b.subrange(
            p3,
            p3 + f(es[i]).len() as int,
        ) == f(es[i]) implies df(b, p3) == Some((es[i], p3 + f(es[i]).len())) by {
        lemma_dec_index_entry_at(b, p3, es[i]);
    }
    assert(decoder_inverts_on(b, es, f, df));
    lemma_dec_list_at(b, 8, es, f, df);
    assert(8 + enc_list(es, f).len() as int == b.len());
}

// ---------------------------------------------------------------------------
// Tree serialization
// ---------------------------------------------------------------------------
fn read_tree_entry(b: &[u8], pos: usize) -> (r: Option<(TreeEntry, usize)>)
    ensures
        match r {
            Some((e, p)) => dec_tree_entry(b@, pos as int) == Some((e@, p as int)),
            None => dec_tree_entry(b@, pos as int) is None,
        },
{
    match read_str(b, pos) {
        Some((name, p1)) => match read_str(b, p1) {
            Some((mode, p2)) => match read_str(b, p2) {
                Some((hash, p3)) => match read_bool(b, p3) {
                    Some((is_file, p4)) => Some((TreeEntry { mode, hash, name, is_file }, p4)),
                    None => None,
                },
                None => None,
            },
            None => None,
        },
        None => None,
    }
}

/// Serializes a tree's entry list: the bytes whose digest is the tree's
/// identity.
pub fn encode_tree_body(entries: &Vec<TreeEntry>) -> (r: Vec<u8>)
    ensures
        r@ == enc_tree_body(entries@.map_values(|e: TreeEntry| e@)),
        tree_entries_fit(entries@.map_values(|e: TreeEntry| e@)),
        entries@.len() <= u64::MAX,
{
    let ghost view = entries@.map_values(|e: TreeEntry| e@);
    let mut buf: Vec<u8> = Vec::new();
    push_u64(&mut buf, entries.len() as u64);
    let mut i: usize = 0;
    while i < entries.len()
        invariant
            i <= view.len(),
            view == entries@.map_values(|e: TreeEntry| e@),
            buf@ == enc_u64(view.len() as u64) + enc_list(
                view.take(i as int),
                |e: TreeEntryView| enc_tree_entry(e),
            ),
            forall|j: int| 0 <= j < i ==> tree_entry_fits(#[trigger] view[j]),
        decreases view.len() - i,
    {
        let e = &entries[i];
        push_str(&mut buf, e.name.as_str());
        push_str(&mut buf, e.mode.as_str());
        push_str(&mut buf, e.hash.as_str());
        push_bool(&mut buf, e.is_file);
        proof {
            let f = |e: TreeEntryView| enc_tree_entry(e);
            lemma_enc_list_push(view.take(i as int), f, view[i as int]);
            assert(view.take(i as int).push(view[i as int]) =~= view.take(i as int + 1));
            assert(buf@ =~= enc_u64(view.len() as u64) + enc_list(view.take(i as int + 1), f));
        }
        i += 1;
    }
    proof {
        assert(view.take(view.len() as int) =~= view);
    }
    buf
}

/// Serializes a tree object.
pub fn encode_tree(t: &Tree) -> (r: Vec<u8>)
    ensures
        r@ == enc_tree(t@),
        str_fits(t@.hash),
        tree_entries_fit(t@.entries),
        t@.entries.len() <= u64::MAX,
{
    let mut buf: Vec<u8> = Vec::new();
    buf.push(TAG_TREE);
    push_str(&mut buf, t.hash.as_str());
    let mut body = encode_tree_body(&t.entries);
    buf.append(&mut body);
    proof {
        assert(buf@ =~= enc_tree(t@));
    }
    buf
}

/// Deserializes a tree object, accepting exactly the tree encodings.
#[verifier::loop_isolation(false)]
pub fn decode_tree(bytes: &[u8]) -> (r: Result<Tree, GitError>)
    ensures
        match r {
            Ok(t) => dec_tree(bytes@) == Some(t@),
            Err(e) => dec_tree(bytes@) is None && e == GitError::MalformedObject,
        },
{
    let ghost df = |bb: Seq<u8>, pp: int| dec_tree_entry(bb, pp);
    if bytes.len() >= 1 && bytes[0] == TAG_TREE {
        if let Some((hash, p1)) = read_str(bytes, 1) {
            if let Some((n, p2)) = read_u64(bytes, p1) {
                let mut entries: Vec<TreeEntry> = Vec::new();
                let mut pos: usize = p2;
                let mut i: u64 = 0;
                proof {
                    assert(entries@.map_values(|e: TreeEntry| e@) =~= Seq::<TreeEntryView>::empty());
                    let l0 = dec_list(bytes@, p2 as int, n as nat, df);
                    if l0 is Some {
                        let (rest, pend) = l0->Some_0;
                        assert(Seq::<TreeEntryView>::empty() + rest =~= rest);
                    }
                }
                loop
                    invariant
                        i <= n,
                        entries@.len() == i,
                        dec_str(bytes@, 1) == Some((hash@, p1 as int)),
                        dec_u64(bytes@, p1 as int) == Some((n, p2 as int)),
                        match dec_list(bytes@, pos as int, (n - i) as nat, df) {
                            Some((rest, pend)) => dec_list(bytes@, p2 as int, n as nat, df)
                                == Some((entries@.map_values(|e: TreeEntry| e@) + rest, pend)),
                            None => dec_list(bytes@, p2 as int, n as nat, df) is None,
                        },
                    decreases n - i,
                {
                    if i == n {
                        break;
                    }
                    match read_tree_entry(bytes, pos) {
                        Some((e, p)) => {
                            proof {
                                assert(df(bytes@, pos as int) == dec_tree_entry(
                                    bytes@,
                                    pos as int,
                                ));
                                let acc = entries@.map_values(|e: TreeEntry| e@);
                                assert((entries@.push(e)).map_values(|e: TreeEntry| e@)
                                    =~= acc.push(e@));
                                assert(acc.push(e@) =~= acc + seq![e@]);
                                let sub = dec_list(bytes@, p as int, (n - i - 1) as nat, df);
                                assert(dec_list(bytes@, pos as int, (n - i) as nat, df) == (
                                match sub {
                                    Some((es2, pp2)) => Some((seq![e@] + es2, pp2)),
                                    None => None,
                                }));
                                if sub is Some {
                                    let (rest2, pend2) = sub->Some_0;
                                    assert(acc + (seq![e@] + rest2) =~= (acc + seq![e@]) + rest2);
                                }
                            }
                            entries.push(e);
                            pos = p;
                            i = i + 1;
                        },
                        None => {
                            proof {
                                assert(df(bytes@, pos as int) == dec_tree_entry(
                                    bytes@,
                                    pos as int,
                                ));
                                assert(dec_list(bytes@, pos as int, (n - i) as nat, df) is None);
                            }
                            return Err(GitError::MalformedObject);
                        },
                    }
                }
                proof {
                    let acc = entries@.map_values(|e: TreeEntry| e@);
                    assert(acc + Seq::<TreeEntryView>::empty() =~= acc);
                }
                if pos == bytes.len() {
                    let t = Tree { hash, entries };
                    return Ok(t);
                }
            }
        }
    }
    Err(GitError::MalformedObject)
}

// ---------------------------------------------------------------------------
// Commit serialization
// ---------------------------------------------------------------------------
/// Serializes a commit object.
pub fn encode_commit(c: &Commit) -> (r: Vec<u8>)
    ensures
        r@ == enc_commit(c@),
        commit_fits(c@),
{
    let mut buf: Vec<u8> = Vec::new();
    buf.push(TAG_COMMIT);
    push_str(&mut buf, c.hash.as_str());
    push_opt_str(&mut buf, &c.parent);
    push_str(&mut buf, c.tree.as_str());
    push_str(&mut buf, c.author.as_str());
    push_str(&mut buf, c.message.as_str());
    push_u64(&mut buf, c.timestamp);
    proof {
        assert(buf@ =~= enc_commit(c@));
    }
    buf
}

/// Deserializes a commit object, accepting exactly the commit encodings.
pub fn decode_commit(bytes: &[u8]) -> (r: Result<Commit, GitError>)
    ensures
        match r {
            Ok(c) => dec_commit(bytes@) == Some(c@),
            Err(e) => dec_commit(bytes@) is None && e == GitError::MalformedObject,
        },
{
    if bytes.len() >= 1 && bytes[0] == TAG_COMMIT {
        if let Some((hash, p1)) = read_str(bytes, 1) {
            if let Some((parent, p2)) = read_opt_str(bytes, p1) {
                if let Some((tree, p3)) = read_str(bytes, p2) {
                    if let Some((author, p4)) = read_str(bytes, p3) {
                        if let Some((message, p5)) = read_str(bytes, p4) {
                            if let Some((timestamp, p6)) = read_u64(bytes, p5) {
                                if p6 == bytes.len() {
                                    return Ok(
                                        Commit { hash, parent, tree, author, message, timestamp },
                                    );
                                }
                            }
                        }
                    }
                }
            }
        }
    }
    Err(GitError::MalformedObject)
}

// ---------------------------------------------------------------------------
// Index serialization
// ---------------------------------------------------------------------------
fn read_index_entry(b: &[u8], pos: usize) -> (r: Option<(IndexEntry, usize)>)
    ensures
        match r {
            Some((e, p)) => dec_index_entry(b@, pos as int) == Some((e@, p as int)),
            None => dec_index_entry(b@, pos as int) is None,
        },
{
    match read_str(b, pos) {
        Some((path, p1)) => match read_str(b, p1) {
            Some((hash, p2)) => match read_str(b, p2) {
                Some((mode, p3)) => Some((IndexEntry { hash, mode, path }, p3)),
                None => None,
            },
            None => None,
        },
        None => None,
    }
}

/// Whether the staged paths are pairwise distinct.
pub fn paths_unique(entries: &Vec<IndexEntry>) -> (r: bool)
    ensures
        r == index_paths_unique(entries@.map_values(|e: IndexEntry| e@)),
{
    let ghost view = entries@.map_values(|e: IndexEntry| e@);
    let mut i: usize = 1;
    while i < entries.len()
        invariant
            1 <= i,
            view == entries@.map_values(|e: IndexEntry| e@),
            forall|a: int, b: int| 0 <= a < b < i && b < view.len() ==> view[a].path != view[b].path,
        decreases entries@.len() - i,
    {
        let mut j: usize = 0;
        while j < i
            invariant
                j <= i,
                i < view.len(),
                view == entries@.map_values(|e: IndexEntry| e@),
                forall|a: int| 0 <= a < j ==> view[a].path != view[i as int].path,
            decreases i - j,
        {
            if entries[j].path == entries[i].path {
                proof {
                    assert(view[j as int].path == view[i as int].path);
                    assert(!index_paths_unique(view));
                }
                return false;
            }
            j += 1;
        }
        i += 1;
    }
    true
}

/// Serializes the staging index.
pub fn encode_index(ix: &Index) -> (r: Vec<u8>)
    ensures
        r@ == enc_index(ix@),
        index_entries_fit(ix@),
        ix@.len() <= u64::MAX,
{
    let ghost view = ix@;
    let mut buf: Vec<u8> = Vec::new();
    push_u64(&mut buf, ix.entries.len() as u64);
    let mut i: usize = 0;
    while i < ix.entries.len()
        invariant
            i <= view.len(),
            view == ix@,
            buf@ == enc_u64(view.len() as u64) + enc_list(
                view.take(i as int),
                |e: IndexEntryView| enc_index_entry(e),
            ),
            forall|j: int| 0 <= j < i ==> index_entry_fits(#[trigger] view[j]),
        decreases view.len() - i,
    {
        let e = &ix.entries[i];
        push_str(&mut buf, e.path.as_str());
        push_str(&mut buf, e.hash.as_str());
        push_str(&mut buf, e.mode.as_str());
        proof {
            let f = |e: IndexEntryView| enc_index_entry(e);
            lemma_enc_list_push(view.take(i as int), f, view[i as int]);
            assert(view.take(i as int).push(view[i as int]) =~= view.take(i as int + 1));
            assert(buf@ =~= enc_u64(view.len() as u64) + enc_list(view.take(i as int + 1), f));
        }
        i += 1;
    }
    proof {
        assert(view.take(view.len() as int) =~= view);
    }
    buf
}

/// Deserializes the staging index, accepting exactly the encodings whose
/// paths are pairwise distinct.
#[verifier::loop_isolation(false)]
pub fn decode_index(bytes: &[u8]) -> (r: Result<Index, GitError>)
    ensures
        match r {
            Ok(ix) => dec_index(bytes@) == Some(ix@) && ix.wf(),
            Err(e) => dec_index(bytes@) is None && e == GitError::MalformedObject,
        },
{
    let ghost df = |bb: Seq<u8>, pp: int| dec_index_entry(bb, pp);
    if let Some((n, p1)) = read_u64(bytes, 0) {
        let mut entries: Vec<IndexEntry> = Vec::new();
        let mut pos: usize = p1;
        let mut i: u64 = 0;
        proof {
            assert(entries@.map_values(|e: IndexEntry| e@) =~= Seq::<IndexEntryView>::empty());
            let l0 = dec_list(bytes@, p1 as int, n as nat, df);
            if l0 is Some {
                let (rest, pend) = l0->Some_0;
                assert(Seq::<IndexEntryView>::empty() + rest =~= rest);
            }
        }
        loop
            invariant
                i <= n,
                entries@.len() == i,
                dec_u64(bytes@, 0) == Some((n, p1 as int)),
                match dec_list(bytes@, pos as int, (n - i) as nat, df) {
                    Some((rest, pend)) => dec_list(bytes@, p1 as int, n as nat, df) == Some(
                        (entries@.map_values(|e: IndexEntry| e@) + rest, pend),
                    ),
                    None => dec_list(bytes@, p1 as int, n as nat, df) is None,
                },
            decreases n - i,
        {
            if i == n {
                break;
            }
            match read_index_entry(bytes, pos) {
                Some((e, p)) => {
                    proof {
                        assert(df(bytes@, pos as int) == dec_index_entry(bytes@, pos as int));
                        let acc = entries@.map_values(|e: IndexEntry| e@);
                        assert((entries@.push(e)).map_values(|e: IndexEntry| e@) =~= acc.push(e@));
                        assert(acc.push(e@) =~= acc + seq![e@]);
                        let sub = dec_list(bytes@, p as int, (n - i - 1) as nat, df);
                        assert(dec_list(bytes@, pos as int, (n - i) as nat, df) == (
                        match sub {
                            Some((es2, pp2)) => Some((seq![e@] + es2, pp2)),
                            None => None,
                        }));
                        if sub is Some {
                            let (rest2, pend2) = sub->Some_0;
                            assert(acc + (seq![e@] + rest2) =~= (acc + seq![e@]) + rest2);
                        }
                    }
                    entries.push(e);
                    pos = p;
                    i = i + 1;
                },
                None => {
                    proof {
                        assert(df(bytes@, pos as int) == dec_index_entry(bytes@, pos as int));
                        assert(dec_list(bytes@, pos as int, (n - i) as nat, df) is None);
                    }
                    return Err(GitError::MalformedObject);
                },
            }
        }
        proof {
            let acc = entries@.map_values(|e: IndexEntry| e@);
            assert(acc + Seq::<IndexEntryView>::empty() =~= acc);
        }
        if pos == bytes.len() {
            if paths_unique(&entries) {
                let ix = Index { entries };
                return Ok(ix);
            }
        }
    }
    Err(GitError::MalformedObject)
}

} // verus!
