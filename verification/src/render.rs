use vstd::prelude::*;
use vstd::string::*;
use crate::filter::{filter_groups, filtered_of, term_view};
use crate::group::{Group, GroupModel, models_of};
use crate::highlight::{highlight_matches, highlight_spec};
use crate::markup::{md_plain, replace_markdown};
use crate::text::{find_sub, has_substring, match_at, range_string, to_chars};

verus! {

// ---------------------------------------------------------------------------
// The page renderer: one table row per retained group (name, transformed and
// highlighted description, tag list, join link); a single "No results found"
// row when nothing is retained; the rows substituted into the template in
// place of the first occurrence of the placeholder token.
// ---------------------------------------------------------------------------

/// The placeholder token the template holds in place of the rendered rows.
pub open spec fn placeholder() -> Seq<char> {
    "{{groups}}"@
}

/// The row shown when no group is retained.
pub open spec fn no_results_row() -> Seq<char> {
    "<tr><td colspan=\"4\">No results found</td></tr>"@
}

/// The tag list of a row: one `<li>` item per tag, in stored order.
pub open spec fn tags_html(tags: Seq<Seq<char>>) -> Seq<char>
    decreases tags.len(),
{
    if tags.len() == 0 {
        Seq::empty()
    } else {
        "<li>"@ + tags[0] + "</li>"@ + tags_html(tags.skip(1))
    }
}

/// The displayed name: highlighted when a term is present.
pub open spec fn shown_name(g: GroupModel, term: Option<Seq<char>>) -> Seq<char> {
    match term {
        Option::Some(t) => highlight_spec(g.name, t),
        Option::None => g.name,
    }
}

/// The displayed description: markup transformed, then highlighted when a
/// term is present.
pub open spec fn shown_description(g: GroupModel, term: Option<Seq<char>>) -> Seq<char> {
    match term {
        Option::Some(t) => highlight_spec(md_plain(g.description), t),
        Option::None => md_plain(g.description),
    }
}

/// One table row for a group.
pub open spec fn row_of(g: GroupModel, term: Option<Seq<char>>) -> Seq<char> {
    "<tr><td>"@ + shown_name(g, term) + "</td><td>"@ + shown_description(g, term)
        + "</td><td><ul>"@ + tags_html(g.tags) + "</ul></td><td><a href=\""@ + g.url
        + "\">Join Group</a></td></tr>"@
}

/// The rows of the retained groups, concatenated in order.
pub open spec fn rows_of(gs: Seq<GroupModel>, term: Option<Seq<char>>) -> Seq<char>
    decreases gs.len(),
{
    if gs.len() == 0 {
        Seq::empty()
    } else {
        row_of(gs[0], term) + rows_of(gs.skip(1), term)
    }
}

/// The rendered fragment: the rows, or the single no-results row.
pub open spec fn fragment_of(gs: Seq<GroupModel>, term: Option<Seq<char>>) -> Seq<char> {
    if gs.len() == 0 {
        no_results_row()
    } else {
        rows_of(gs, term)
    }
}

/// The position of the first occurrence of `pat` in `s`.
pub open spec fn first_match(s: Seq<char>, pat: Seq<char>) -> int {
    choose|i: int|
        match_at(s, pat, i) && forall|j: int| 0 <= j < i ==> !match_at(s, pat, j)
}

/// `s` with the first occurrence of `pat` replaced by `rep`; without an
/// occurrence, `s` unchanged.
pub open spec fn replace_first(s: Seq<char>, pat: Seq<char>, rep: Seq<char>) -> Seq<char> {
    if has_substring(s, pat) {
        let i = first_match(s, pat);
        s.take(i) + rep + s.skip(i + pat.len())
    } else {
        s
    }
}

/// The complete page: the groups filtered by the term, rendered, and
/// substituted into the template in place of the placeholder.
pub open spec fn page_of(gs: Seq<GroupModel>, template: Seq<char>, term: Option<Seq<char>>) -> Seq<
    char,
> {
    replace_first(template, placeholder(), fragment_of(filtered_of(gs, term), term))
}

/// The tag list of a row, as HTML.
fn tags_html_exec(tags: &Vec<String>) -> (r: String)
    ensures
        r@ == tags_html(tags.deep_view()),
{
    let ghost dv = tags.deep_view();
    let mut out = String::new();
    let mut k: usize = 0;
    assert(dv.skip(0) =~= dv);
    assert(out@ + tags_html(dv) =~= tags_html(dv));
    while k < tags.len()
        invariant
            k <= tags@.len(),
            dv == tags.deep_view(),
            dv.len() == tags@.len(),
            tags_html(dv) == out@ + tags_html(dv.skip(k as int)),
        decreases tags@.len() - k,
    {
        let ghost pre = out@;
        assert(dv.skip(k as int)[0] == dv[k as int]);
        assert(dv.skip(k as int).skip(1) =~= dv.skip(k + 1));
        assert(dv[k as int] == tags@[k as int]@);
        out.append("<li>");
        out.append(tags[k].as_str());
        out.append("</li>");
        proof {
            let t = dv[k as int];
            let rest = tags_html(dv.skip(k + 1));
            assert(tags_html(dv.skip(k as int)) == "<li>"@ + t + "</li>"@ + rest);
            assert(out@ =~= pre + ("<li>"@ + t + "</li>"@));
            assert(pre + ("<li>"@ + t + "</li>"@) + rest =~= pre + ("<li>"@ + t + "</li>"@
                + rest));
        }
        k = k + 1;
    }
    assert(dv.skip(dv.len() as int) =~= Seq::<Seq<char>>::empty());
    assert(out@ + Seq::<char>::empty() =~= out@);
    assert(tags_html(Seq::<Seq<char>>::empty()) == Seq::<char>::empty());
    out
}

/// One table row for a group.
fn row_exec(g: &Group, term: &Option<String>) -> (r: String)
    ensures
        r@ == row_of(g@, term_view(term)),
{
    let desc = replace_markdown(g.description.as_str());
    let nm: String;
    let ds: String;
    match term {
        Option::Some(t) => {
            nm = highlight_matches(g.name.as_str(), t.as_str());
            ds = highlight_matches(desc.as_str(), t.as_str());
        },
        Option::None => {
            nm = g.name.clone();
            ds = desc;
        },
    }
    let tags = tags_html_exec(&g.tags);
    let mut out = String::new();
    out.append("<tr><td>");
    out.append(nm.as_str());
    out.append("</td><td>");
    out.append(ds.as_str());
    out.append("</td><td><ul>");
    out.append(tags.as_str());
    out.append("</ul></td><td><a href=\"");
    out.append(g.url.as_str());
    out.append("\">Join Group</a></td></tr>");
    proof {
        assert(nm@ == shown_name(g@, term_view(term)));
        assert(ds@ == shown_description(g@, term_view(term)));
        assert(out@ =~= row_of(g@, term_view(term)));
    }
    out
}

/// The rows of the retained groups, concatenated in order.
fn rows_exec(groups: &Vec<Group>, term: &Option<String>) -> (r: String)
    ensures
        r@ == rows_of(models_of(groups@), term_view(term)),
{
    let ghost ms = models_of(groups@);
    let mut out = String::new();
    let mut k: usize = 0;
    assert(ms.skip(0) =~= ms);
    assert(out@ + rows_of(ms, term_view(term)) =~= rows_of(ms, term_view(term)));
    while k < groups.len()
        invariant
            k <= groups@.len(),
            ms == models_of(groups@),
            ms.len() == groups@.len(),
            rows_of(ms, term_view(term)) == out@ + rows_of(ms.skip(k as int), term_view(term)),
        decreases groups@.len() - k,
    {
        let ghost pre = out@;
        assert(ms.skip(k as int)[0] == ms[k as int]);
        assert(ms.skip(k as int).skip(1) =~= ms.skip(k + 1));
        assert(ms[k as int] == groups@[k as int]@);
        let row = row_exec(&groups[k], term);
        out.append(row.as_str());
        proof {
            let rest = rows_of(ms.skip(k + 1), term_view(term));
            assert(rows_of(ms.skip(k as int), term_view(term)) == row@ + rest);
            assert(pre + row@ + rest =~= pre + (row@ + rest));
        }
        k = k + 1;
    }
    assert(ms.skip(ms.len() as int) =~= Seq::<GroupModel>::empty());
    assert(out@ + Seq::<char>::empty() =~= out@);
    assert(rows_of(Seq::<GroupModel>::empty(), term_view(term)) == Seq::<char>::empty());
    out
}

/// Substitutes `rep` for the first occurrence of `pat` in the template.
fn substitute(template: &str, pat: &Vec<char>, rep: &str) -> (r: String)
    ensures
        r@ == replace_first(template@, pat@, rep@),
{
    let tc = to_chars(template);
    match find_sub(&tc, pat) {
        Option::Some(i) => {
            proof {
                assert(has_substring(template@, pat@));
                let fm = first_match(template@, pat@);
                assert(match_at(template@, pat@, fm) && forall|j: int|
                    0 <= j < fm ==> !match_at(template@, pat@, j)) by {
                    assert(match_at(template@, pat@, i as int) && forall|j: int|
                        0 <= j < i ==> !match_at(template@, pat@, j));
                }
                assert(fm == i);
            }
            let n = tc.len();
            assert(i + pat@.len() <= tc@.len());
            let mut out = range_string(&tc, 0, i);
            out.append(rep);
            let tail = range_string(&tc, i + pat.len(), n);
            out.append(tail.as_str());
            proof {
                assert(tc@.subrange(0, i as int) =~= template@.take(i as int));
                assert(tc@.subrange(i + pat@.len(), tc@.len() as int) =~= template@.skip(
                    i + pat@.len(),
                ));
                assert(out@ =~= template@.take(i as int) + rep@ + template@.skip(
                    i + pat@.len(),
                ));
            }
            out
        },
        Option::None => template.to_owned(),
    }
}

/// Renders the complete page for an optional raw search term: load order is
/// the caller's, filtering, markup, highlighting and template substitution
/// happen here.
pub fn render_groups(groups: Vec<Group>, template: &str, search_term: Option<String>) -> (r:
    String)
    ensures
        r@ == page_of(models_of(groups@), template@, term_view(&search_term)),
{
    let ghost orig = models_of(groups@);
    let filtered = filter_groups(groups, &search_term);
    let rows: String;
    if filtered.len() == 0 {
        rows = "<tr><td colspan=\"4\">No results found</td></tr>".to_owned();
        proof {
            assert(models_of(filtered@).len() == 0);
        }
    } else {
        rows = rows_exec(&filtered, &search_term);
        proof {
            assert(models_of(filtered@).len() > 0);
        }
    }
    assert(rows@ == fragment_of(filtered_of(orig, term_view(&search_term)), term_view(
        &search_term,
    )));
    let pat = to_chars("{{groups}}");
    let page = substitute(template, &pat, rows.as_str());
    page
}

/// Renders the page with no search term.
pub fn index(groups: Vec<Group>, template: &str) -> (r: String)
    ensures
        r@ == page_of(models_of(groups@), template@, Option::None),
{
    render_groups(groups, template, Option::None)
}

/// Renders the page for an optional search term, as the search route does.
pub fn search(groups: Vec<Group>, template: &str, term: Option<String>) -> (r: String)
    ensures
        r@ == page_of(models_of(groups@), template@, term_view(&term)),
{
    render_groups(groups, template, term)
}

} // verus!
