use vstd::prelude::*;
use vstd::string::*;
use crate::text::{push_char, to_chars, lowercase, lower_of, match_at, match_at_exec};

verus! {

// ---------------------------------------------------------------------------
// Match highlighting: a case-insensitive left-to-right scan of the text for
// the search term; each non-overlapping occurrence has its original-case
// slice wrapped in `<mark>...</mark>`, and the scan resumes after it. An
// empty (lowercased) term highlights nothing.
//
// The scan runs over the lowercase forms; the emitted characters come from
// the source text at the same positions, clamped to its length where the
// lowercase form is longer.
// ---------------------------------------------------------------------------

/// The characters of `text` from `a` up to `b`, clamped to its length.
pub open spec fn slice_clamped(text: Seq<char>, a: int, b: int) -> Seq<char> {
    let hi = if b <= text.len() {
        b
    } else {
        text.len() as int
    };
    if 0 <= a <= hi {
        text.subrange(a, hi)
    } else {
        Seq::empty()
    }
}

/// The highlighting scan from position `i`: lowercase text `tl` is searched
/// for lowercase term `tm`; pieces are emitted from `text`.
pub open spec fn highlight_at(text: Seq<char>, tl: Seq<char>, tm: Seq<char>, i: int) -> Seq<
    char,
>
    decreases tl.len() - i,
{
    if tm.len() == 0 || i >= tl.len() || i < 0 {
        slice_clamped(text, i, text.len() as int)
    } else if match_at(tl, tm, i) {
        "<mark>"@ + slice_clamped(text, i, i + tm.len()) + "</mark>"@ + highlight_at(
            text,
            tl,
            tm,
            i + tm.len(),
        )
    } else {
        slice_clamped(text, i, i + 1) + highlight_at(text, tl, tm, i + 1)
    }
}

/// The highlighted form of `text` for the raw search term `term`.
pub open spec fn highlight_spec(text: Seq<char>, term: Seq<char>) -> Seq<char> {
    if lower_of(term).len() == 0 {
        text
    } else {
        highlight_at(text, lower_of(text), lower_of(term), 0)
    }
}

/// The characters of `v` from `a` up to `b`, clamped to its length, as a
/// string.
fn slice_string(v: &Vec<char>, a: usize, b: usize) -> (s: String)
    ensures
        s@ == slice_clamped(v@, a as int, b as int),
{
    let hi = if b <= v.len() {
        b
    } else {
        v.len()
    };
    let mut s = String::new();
    let mut k: usize = a;
    while k < hi
        invariant
            a <= k,
            hi <= v@.len(),
            a <= hi ==> k <= hi && s@ == v@.subrange(a as int, k as int),
            a > hi ==> k == a && s@ == Seq::<char>::empty(),
        decreases hi - k,
    {
        push_char(&mut s, v[k]);
        assert(v@.subrange(a as int, k as int).push(v@[k as int]) =~= v@.subrange(
            a as int,
            k + 1,
        ));
        k = k + 1;
    }
    s
}

/// Wraps each case-insensitive, non-overlapping occurrence of `term` in
/// `text` in `<mark>...</mark>`, keeping the original case of the matched
/// slice; an empty term leaves the text unchanged.
pub fn highlight_matches(text: &str, term: &str) -> (r: String)
    ensures
        r@ == highlight_spec(text@, term@),
{
    let tmlow = lowercase(term);
    if tmlow.as_str().unicode_len() == 0 {
        return text.to_owned();
    }
    let tlow = lowercase(text);
    let tl = to_chars(tlow.as_str());
    let tm = to_chars(tmlow.as_str());
    let tc = to_chars(text);
    let m = tm.len();
    let mut out = String::new();
    let mut i: usize = 0;
    assert(out@ + highlight_at(text@, tl@, tm@, 0) =~= highlight_at(text@, tl@, tm@, 0));
    while i < tl.len()
        invariant
            tl@ == lower_of(text@),
            tm@ == lower_of(term@),
            tc@ == text@,
            m == tm@.len(),
            m > 0,
            i <= tl@.len(),
            highlight_at(text@, tl@, tm@, 0) == out@ + highlight_at(text@, tl@, tm@, i as int),
        decreases tl@.len() - i,
    {
        let ghost pre = out@;
        if match_at_exec(&tl, &tm, i) {
            out.append("<mark>");
            let piece = slice_string(&tc, i, i + m);
            out.append(piece.as_str());
            out.append("</mark>");
            proof {
                let s = slice_clamped(text@, i as int, i + m);
                let rest = highlight_at(text@, tl@, tm@, i + m);
                assert(highlight_at(text@, tl@, tm@, i as int) == "<mark>"@ + s + "</mark>"@
                    + rest);
                assert(out@ =~= pre + ("<mark>"@ + s + "</mark>"@));
                assert(pre + ("<mark>"@ + s + "</mark>"@) + rest =~= pre + ("<mark>"@ + s
                    + "</mark>"@ + rest));
            }
            i = i + m;
        } else {
            if i < tc.len() {
                push_char(&mut out, tc[i]);
                assert(out@ =~= pre + slice_clamped(text@, i as int, i + 1)) by {
                    assert(slice_clamped(text@, i as int, i + 1) =~= seq![text@[i as int]]);
                }
            } else {
                assert(slice_clamped(text@, i as int, i + 1) =~= Seq::<char>::empty());
                assert(out@ =~= pre + slice_clamped(text@, i as int, i + 1));
            }
            proof {
                let s = slice_clamped(text@, i as int, i + 1);
                let rest = highlight_at(text@, tl@, tm@, i + 1);
                assert(highlight_at(text@, tl@, tm@, i as int) == s + rest);
                assert(pre + s + rest =~= pre + (s + rest));
            }
            i = i + 1;
        }
    }
    let tail = slice_string(&tc, i, tc.len());
    out.append(tail.as_str());
    assert(highlight_at(text@, tl@, tm@, i as int) == slice_clamped(
        text@,
        i as int,
        text@.len() as int,
    ));
    out
}

} // verus!
