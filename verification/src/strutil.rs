//! Conversions between byte sequences and strings, tied to vstd's UTF-8
//! model so that encoding and decoding can be reasoned about exactly.

use vstd::prelude::*;
use vstd::string::StrSliceExecFns;
use vstd::utf8::{
    decode_utf8, encode_utf8, encode_utf8_decode_utf8, encode_utf8_valid_utf8, is_ascii_chars,
    is_ascii_chars_encode_utf8, valid_utf8,
};

verus! {

/// What `String::from_utf8_lossy` returns: a function of the bytes alone.
pub uninterp spec fn utf8_lossy(b: Seq<u8>) -> Seq<char>;

/// Relies on `String::from_utf8`: succeeds exactly on valid UTF-8, and the
/// returned string's UTF-8 encoding is the input itself.
#[verifier::external_body]
pub fn bytes_to_string(v: &[u8]) -> (r: Option<String>)
    ensures
        match r {
            Some(s) => encode_utf8(s@) == v@,
            None => !valid_utf8(v@),
        },
{
    String::from_utf8(v.to_vec()).ok()
}

/// Relies on `String::from_utf8_lossy`: the result depends on the bytes
/// alone, and valid UTF-8 comes back unchanged.
#[verifier::external_body]
pub fn bytes_to_string_lossy(v: &[u8]) -> (r: String)
    ensures
        r@ == utf8_lossy(v@),
        valid_utf8(v@) ==> encode_utf8(r@) == v@,
{
    String::from_utf8_lossy(v).into_owned()
}

/// The characters spelled by a sequence of ASCII bytes.
pub open spec fn ascii_seq(b: Seq<u8>) -> Seq<char> {
    b.map_values(|x: u8| x as char)
}

/// Builds the string spelled by a sequence of ASCII bytes; fully verified
/// against vstd's UTF-8 model.
pub fn ascii_bytes_to_string(v: &[u8]) -> (r: String)
    requires
        forall|i: int| 0 <= i < v@.len() ==> v@[i] < 128,
    ensures
        r@ == ascii_seq(v@),
        is_ascii_chars(r@),
{
    proof {
        let chars = ascii_seq(v@);
        assert forall|i: int| 0 <= i < chars.len() implies '\0' <= #[trigger] chars[i]
            <= '\u{7f}' by {
            assert(chars[i] == v@[i] as char);
        }
        assert(is_ascii_chars(chars));
        is_ascii_chars_encode_utf8(chars);
        assert(encode_utf8(chars) =~= v@);
        encode_utf8_valid_utf8(chars);
    }
    match bytes_to_string(v) {
        Some(s) => {
            proof {
                encode_utf8_decode_utf8(s@);
                encode_utf8_decode_utf8(ascii_seq(v@));
            }
            s
        },
        None => {
            proof {
                assert(false);
            }
            String::new()
        },
    }
}

/// ASCII whitespace, as trimming understands it.
pub open spec fn is_ws(c: char) -> bool {
    c == ' ' || c == '\n' || c == '\t' || c == '\r'
}

pub open spec fn trim_front(s: Seq<char>) -> Seq<char>
    decreases s.len(),
{
    if s.len() > 0 && is_ws(s[0]) {
        trim_front(s.drop_first())
    } else {
        s
    }
}

pub open spec fn trim_back(s: Seq<char>) -> Seq<char>
    decreases s.len(),
{
    if s.len() > 0 && is_ws(s.last()) {
        trim_back(s.drop_last())
    } else {
        s
    }
}

/// The string with leading and trailing whitespace removed.
pub open spec fn trim_spec(s: Seq<char>) -> Seq<char> {
    trim_back(trim_front(s))
}

fn is_ws_exec(c: char) -> (r: bool)
    ensures
        r == is_ws(c),
{
    c == ' ' || c == '\n' || c == '\t' || c == '\r'
}

/// Removes leading and trailing whitespace.
#[verifier::loop_isolation(false)]
pub fn trim_str(s: &str) -> (r: String)
    ensures
        r@ == trim_spec(s@),
{
    let n = s.unicode_len();
    let mut start: usize = 0;
    proof {
        assert(s@.skip(0) =~= s@);
    }
    while start < n && is_ws_exec(s.get_char(start))
        invariant
            start <= n,
            n == s@.len(),
            trim_front(s@.skip(start as int)) == trim_front(s@),
        decreases n - start,
    {
        proof {
            assert(s@.skip(start as int).drop_first() =~= s@.skip(start as int + 1));
        }
        start += 1;
    }
    let f = Ghost(s@.skip(start as int));
    proof {
        if start < n {
            assert(!is_ws(f@[0]));
            assert(trim_front(f@) == f@);
        } else {
            assert(f@ =~= Seq::<char>::empty());
            assert(trim_front(f@) == f@);
        }
    }
    let mut end: usize = n;
    proof {
        assert(f@.take(n - start) =~= f@);
    }
    while end > start && is_ws_exec(s.get_char(end - 1))
        invariant
            start <= end <= n,
            trim_back(f@.take(end - start)) == trim_back(f@),
        decreases end,
    {
        proof {
            assert(f@.take(end - start).drop_last() =~= f@.take(end - 1 - start));
            assert(f@.take(end - start).last() == s@[end - 1]);
        }
        end -= 1;
    }
    proof {
        if end > start {
            assert(f@.take(end - start).last() == s@[end - 1]);
            assert(trim_back(f@.take(end - start)) == f@.take(end - start));
        } else {
            assert(f@.take(end - start) =~= Seq::<char>::empty());
            assert(trim_back(f@.take(end - start)) == f@.take(end - start));
        }
        assert(f@.take(end - start) =~= s@.subrange(start as int, end as int));
    }
    s.substring_char(start, end).to_owned()
}

} // verus!
