//! Splitting text into lines: newline-separated segments, the empty
//! segment after a trailing newline not counted — the usual line reading.

use vstd::prelude::*;
use vstd::string::StrSliceExecFns;

verus! {

/// Splitting on every newline: one segment more than there are newlines.
pub open spec fn split_all(s: Seq<char>) -> Seq<Seq<char>>
    decreases s.len(),
{
    if s.len() == 0 {
        seq![Seq::<char>::empty()]
    } else if s[0] == '\n' {
        seq![Seq::<char>::empty()] + split_all(s.drop_first())
    } else {
        let r = split_all(s.drop_first());
        seq![seq![s[0]] + r[0]] + r.drop_first()
    }
}

pub proof fn lemma_split_all_len(s: Seq<char>)
    ensures
        split_all(s).len() >= 1,
    decreases s.len(),
{
    if s.len() == 0 {
    } else {
        lemma_split_all_len(s.drop_first());
    }
}

/// The lines of a text, without the empty segment a trailing newline
/// would add.
pub open spec fn lines_of(s: Seq<char>) -> Seq<Seq<char>> {
    let p = split_all(s);
    if p.len() > 0 && p.last().len() == 0 {
        p.drop_last()
    } else {
        p
    }
}

/// Where the first `i` characters hold no newline: a newline at `i` ends
/// the first segment there; no newline at all makes the text one segment.
proof fn lemma_split_all_seg(t: Seq<char>, i: int)
    requires
        0 <= i <= t.len(),
        forall|j: int| 0 <= j < i ==> t[j] != '\n',
    ensures
        i < t.len() && t[i] == '\n' ==> split_all(t) == seq![t.subrange(0, i)] + split_all(
            t.skip(i + 1),
        ),
        i == t.len() ==> split_all(t) == seq![t],
    decreases i,
{
    if i == 0 {
        if 0 < t.len() && t[0] == '\n' {
            assert(t.subrange(0, 0) =~= Seq::<char>::empty());
            assert(t.skip(1) =~= t.drop_first());
            assert(split_all(t) =~= seq![t.subrange(0, 0)] + split_all(t.skip(1)));
        }
        if t.len() == 0 {
            assert(t =~= Seq::<char>::empty());
            assert(split_all(t) =~= seq![t]);
        }
    } else {
        let d = t.drop_first();
        assert(forall|j: int| 0 <= j < i - 1 ==> d[j] != '\n') by {
            assert(forall|j: int| 0 <= j < i - 1 ==> d[j] == t[j + 1]);
        }
        lemma_split_all_seg(d, i - 1);
        let r = split_all(d);
        if i < t.len() && t[i] == '\n' {
            assert(d[i - 1] == t[i]);
            assert(r == seq![d.subrange(0, i - 1)] + split_all(d.skip(i)));
            assert(r[0] == d.subrange(0, i - 1));
            assert(d.skip(i) =~= t.skip(i + 1));
            assert(seq![t[0]] + d.subrange(0, i - 1) =~= t.subrange(0, i));
            assert(r.drop_first() =~= split_all(t.skip(i + 1)));
            assert(split_all(t) =~= seq![t.subrange(0, i)] + split_all(t.skip(i + 1)));
        }
        if i == t.len() {
            assert(r == seq![d]);
            assert(seq![t[0]] + d =~= t);
            assert(r.drop_first() =~= Seq::<Seq<char>>::empty());
            assert(split_all(t) =~= seq![t]);
        }
    }
}

/// Splits a text into its lines.
#[verifier::loop_isolation(false)]
pub fn split_lines(s: &str) -> (r: Vec<String>)
    ensures
        r@.map_values(|l: String| l@) == lines_of(s@),
{
    let n = s.unicode_len();
    let mut out: Vec<String> = Vec::new();
    if n == 0 {
        proof {
            assert(split_all(s@) =~= seq![Seq::<char>::empty()]);
            assert(lines_of(s@) =~= Seq::<Seq<char>>::empty());
            assert(out@.map_values(|l: String| l@) =~= Seq::<Seq<char>>::empty());
        }
        return out;
    }
    let mut start: usize = 0;
    proof {
        assert(s@.skip(0) =~= s@);
        assert(out@.map_values(|l: String| l@) =~= Seq::<Seq<char>>::empty());
        assert(Seq::<Seq<char>>::empty() + split_all(s@) =~= split_all(s@));
    }
    loop
        invariant
            start <= n,
            n == s@.len(),
            split_all(s@) == out@.map_values(|l: String| l@) + split_all(s@.skip(start as int)),
        decreases n - start,
    {
        let mut i: usize = start;
        while i < n && s.get_char(i) != '\n'
            invariant
                start <= i <= n,
                forall|j: int| start <= j < i ==> s@[j] != '\n',
            decreases n - i,
        {
            i += 1;
        }
        let piece = s.substring_char(start, i).to_owned();
        let ghost acc = out@.map_values(|l: String| l@);
        let ghost sub = s@.subrange(start as int, i as int);
        out.push(piece);
        proof {
            lemma_split_all_seg(s@.skip(start as int), i - start);
            assert(s@.skip(start as int).subrange(0, i - start) =~= sub);
            assert(out@.map_values(|l: String| l@) =~= acc.push(sub));
            assert(acc.push(sub) =~= acc + seq![sub]);
        }
        if i < n {
            proof {
                assert(s@.skip(start as int)[i - start] == s@[i as int]);
                assert(s@.skip(start as int).skip(i - start + 1) =~= s@.skip(i + 1));
                assert((acc + seq![sub]) + split_all(s@.skip(i + 1)) =~= acc + (seq![sub]
                    + split_all(s@.skip(i + 1))));
            }
            start = i + 1;
        } else {
            proof {
                assert(sub =~= s@.skip(start as int));
                assert(split_all(s@.skip(start as int)) == seq![s@.skip(start as int)]);
                assert(acc + seq![s@.skip(start as int)] =~= out@.map_values(|l: String| l@));
            }
            break;
        }
    }
    proof {
        lemma_split_all_len(s@);
    }
    let m = out.len();
    let drop_last = out[m - 1].as_str().is_empty();
    let ghost full = out@.map_values(|l: String| l@);
    if drop_last {
        let _ = out.pop();
        proof {
            assert(full.last().len() == 0);
            assert(out@.map_values(|l: String| l@) =~= full.drop_last());
        }
    } else {
        proof {
            assert(full.last().len() != 0);
        }
    }
    out
}

} // verus!
