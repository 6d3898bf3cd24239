use vstd::prelude::*;
use vstd::string::*;
use crate::text::push_char;
use crate::text::to_chars;

verus! {

// ---------------------------------------------------------------------------
// The inline markup dialect: `*bold*`, `_italic_`, `!N...!` colored span.
//
// The transform is a single left-to-right scan. A start marker opens a
// construct that runs to the next occurrence of its end marker; an
// unterminated construct consumes the rest of the string and is not closed
// in the output. Content between delimiters is emitted literally, never
// rescanned for other constructs.
// ---------------------------------------------------------------------------

/// A decimal digit.
pub open spec fn is_digit(c: char) -> bool {
    '0' <= c && c <= '9'
}

/// The color name a span digit selects; digits outside 1-9 give an empty
/// name.
pub open spec fn color_of(d: char) -> Seq<char> {
    if d == '1' {
        "red"@
    } else if d == '2' {
        "lime"@
    } else if d == '3' {
        "dodgerblue"@
    } else if d == '4' {
        "goldenrod"@
    } else if d == '5' {
        "lightblue"@
    } else if d == '6' {
        "magenta"@
    } else if d == '7' {
        "pink"@
    } else if d == '8' {
        "brown"@
    } else if d == '9' {
        "black"@
    } else {
        ""@
    }
}

/// The transform in its base state: at the next character a construct may
/// open.
pub open spec fn md_plain(s: Seq<char>) -> Seq<char>
    decreases s.len(), 1int,
{
    if s.len() == 0 {
        Seq::empty()
    } else if s[0] == '*' {
        "<b>"@ + md_until(s.skip(1), '*', "</b>"@)
    } else if s[0] == '_' {
        "<i>"@ + md_until(s.skip(1), '_', "</i>"@)
    } else if s[0] == '!' && s.len() >= 2 && is_digit(s[1]) {
        "<span style=\"color:"@ + color_of(s[1]) + "\">"@ + md_until(s.skip(2), '!', "</span>"@)
    } else {
        seq![s[0]] + md_plain(s.skip(1))
    }
}

/// The transform inside an open construct: characters pass through until the
/// closing marker, whose tag is emitted; at end of input the construct stays
/// open.
pub open spec fn md_until(s: Seq<char>, close: char, tag: Seq<char>) -> Seq<char>
    decreases s.len(), 0int,
{
    if s.len() == 0 {
        Seq::empty()
    } else if s[0] == close {
        tag + md_plain(s.skip(1))
    } else {
        seq![s[0]] + md_until(s.skip(1), close, tag)
    }
}

/// The color name as a string slice.
fn color_str(d: char) -> (r: &'static str)
    ensures
        r@ == color_of(d),
{
    if d == '1' {
        "red"
    } else if d == '2' {
        "lime"
    } else if d == '3' {
        "dodgerblue"
    } else if d == '4' {
        "goldenrod"
    } else if d == '5' {
        "lightblue"
    } else if d == '6' {
        "magenta"
    } else if d == '7' {
        "pink"
    } else if d == '8' {
        "brown"
    } else if d == '9' {
        "black"
    } else {
        ""
    }
}

/// Copies characters from `cs[start..]` up to and including the next `close`
/// marker, emitting `tag` in its place, and returns the copied piece together
/// with the position after the marker; without a marker, copies to the end.
fn copy_until(cs: &Vec<char>, start: usize, close: char, tag: &str) -> (r: (String, usize))
    requires
        start <= cs@.len(),
    ensures
        start <= r.1 <= cs@.len(),
        r.0@ + md_plain(cs@.skip(r.1 as int)) == md_until(cs@.skip(start as int), close, tag@),
{
    let mut piece = String::new();
    let mut k: usize = start;
    while k < cs.len()
        invariant
            start <= k <= cs@.len(),
            md_until(cs@.skip(start as int), close, tag@) == piece@ + md_until(
                cs@.skip(k as int),
                close,
                tag@,
            ),
        decreases cs@.len() - k,
    {
        let c = cs[k];
        assert(cs@.skip(k as int)[0] == c);
        assert(cs@.skip(k as int).skip(1) =~= cs@.skip(k + 1));
        if c == close {
            let ghost pre = piece@;
            piece.append(tag);
            assert(md_until(cs@.skip(k as int), close, tag@) == tag@ + md_plain(
                cs@.skip(k + 1),
            ));
            assert((pre + tag@) + md_plain(cs@.skip(k + 1)) =~= pre + (tag@ + md_plain(
                cs@.skip(k + 1),
            )));
            return (piece, k + 1);
        }
        let ghost pre = piece@;
        push_char(&mut piece, c);
        assert(md_until(cs@.skip(k as int), close, tag@) == seq![c] + md_until(
            cs@.skip(k + 1),
            close,
            tag@,
        ));
        assert(pre.push(c) + md_until(cs@.skip(k + 1), close, tag@) =~= pre + (seq![c]
            + md_until(cs@.skip(k + 1), close, tag@)));
        k = k + 1;
    }
    assert(cs@.skip(cs@.len() as int) =~= Seq::<char>::empty());
    assert(piece@ + md_plain(cs@.skip(cs@.len() as int)) =~= piece@);
    assert(piece@ + md_until(cs@.skip(cs@.len() as int), close, tag@) =~= piece@);
    (piece, cs.len())
}

/// Converts the inline markup dialect in `text` to HTML in one left-to-right
/// scan.
pub fn replace_markdown(text: &str) -> (r: String)
    ensures
        r@ == md_plain(text@),
{
    let cs = to_chars(text);
    let n = cs.len();
    let mut out = String::new();
    let mut i: usize = 0;
    assert(text@.skip(0) =~= text@);
    assert(out@ + md_plain(text@) =~= md_plain(text@));
    while i < n
        invariant
            cs@ == text@,
            n == cs@.len(),
            i <= n,
            md_plain(text@) == out@ + md_plain(text@.skip(i as int)),
        decreases n - i,
    {
        let c = cs[i];
        assert(text@.skip(i as int)[0] == c);
        assert(text@.skip(i as int).skip(1) =~= text@.skip(i + 1));
        if c == '*' {
            let ghost pre = out@;
            let ghost i0 = i as int;
            assert(md_plain(text@.skip(i0)) == "<b>"@ + md_until(text@.skip(i0 + 1), '*', "</b>"@));
            out.append("<b>");
            assert(pre + ("<b>"@ + md_until(text@.skip(i0 + 1), '*', "</b>"@)) =~= (pre + "<b>"@)
                + md_until(text@.skip(i0 + 1), '*', "</b>"@));
            let (piece, j) = copy_until(&cs, i + 1, '*', "</b>");
            out.append(piece.as_str());
            assert(((pre + "<b>"@) + piece@) + md_plain(text@.skip(j as int)) =~= (pre + "<b>"@) + (
            piece@ + md_plain(text@.skip(j as int))));
            i = j;
        } else if c == '_' {
            let ghost pre = out@;
            let ghost i0 = i as int;
            assert(md_plain(text@.skip(i0)) == "<i>"@ + md_until(text@.skip(i0 + 1), '_', "</i>"@));
            out.append("<i>");
            assert(pre + ("<i>"@ + md_until(text@.skip(i0 + 1), '_', "</i>"@)) =~= (pre + "<i>"@)
                + md_until(text@.skip(i0 + 1), '_', "</i>"@));
            let (piece, j) = copy_until(&cs, i + 1, '_', "</i>");
            out.append(piece.as_str());
            assert(((pre + "<i>"@) + piece@) + md_plain(text@.skip(j as int)) =~= (pre + "<i>"@) + (
            piece@ + md_plain(text@.skip(j as int))));
            i = j;
        } else if c == '!' && i + 1 < n && cs[i + 1] >= '0' && cs[i + 1] <= '9' {
            let ghost pre = out@;
            let ghost i0 = i as int;
            let ghost opening = "<span style=\"color:"@ + color_of(cs@[i0 + 1]) + "\">"@;
            assert(text@.skip(i0)[1] == cs@[i0 + 1]);
            assert(text@.skip(i0).skip(2) =~= text@.skip(i0 + 2));
            assert(md_plain(text@.skip(i0)) == opening + md_until(
                text@.skip(i0 + 2),
                '!',
                "</span>"@,
            )) by {
                assert(("<span style=\"color:"@ + color_of(cs@[i0 + 1]) + "\">"@) + md_until(
                    text@.skip(i0 + 2),
                    '!',
                    "</span>"@,
                ) =~= "<span style=\"color:"@ + color_of(cs@[i0 + 1]) + ("\">"@ + md_until(
                    text@.skip(i0 + 2),
                    '!',
                    "</span>"@,
                )));
                assert("<span style=\"color:"@ + color_of(cs@[i0 + 1]) + "\">"@ + md_until(
                    text@.skip(i0 + 2),
                    '!',
                    "</span>"@,
                ) =~= "<span style=\"color:"@ + (color_of(cs@[i0 + 1]) + ("\">"@ + md_until(
                    text@.skip(i0 + 2),
                    '!',
                    "</span>"@,
                ))));
            }
            out.append("<span style=\"color:");
            out.append(color_str(cs[i + 1]));
            out.append("\">");
            assert(out@ =~= pre + opening);
            assert(pre + (opening + md_until(text@.skip(i0 + 2), '!', "</span>"@)) =~= (pre
                + opening) + md_until(text@.skip(i0 + 2), '!', "</span>"@));
            let (piece, j) = copy_until(&cs, i + 2, '!', "</span>");
            out.append(piece.as_str());
            assert(((pre + opening) + piece@) + md_plain(text@.skip(j as int)) =~= (pre + opening)
                + (piece@ + md_plain(text@.skip(j as int))));
            i = j;
        } else {
            push_char(&mut out, c);
            assert(md_plain(text@.skip(i as int)) == seq![c] + md_plain(text@.skip(i + 1)));
            i = i + 1;
        }
    }
    assert(text@.skip(n as int) =~= Seq::<char>::empty());
    assert(md_plain(text@) =~= out@ + Seq::<char>::empty());
    assert(out@ + Seq::<char>::empty() =~= out@);
    out
}

} // verus!
