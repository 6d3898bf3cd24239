use vstd::prelude::*;
use vstd::string::*;
use crate::group::{Group, GroupModel, models_of};
use crate::text::{
    contains_sub, has_substring, is_prefix, is_space, lower_of, lowercase, match_at,
    match_at_exec, space_char, to_chars,
};

verus! {

// ---------------------------------------------------------------------------
// The search filter: the query is lowercased and split on whitespace into
// tokens; a group is retained iff it matches every token. A token matches if
// name, description or any tag (all lowercased) contains it as a substring;
// a token with the literal prefix `tag:` restricts the search to the tags,
// with the prefix stripped. An absent query, or one without tokens, keeps
// every group; retained groups keep their original relative order.
// ---------------------------------------------------------------------------

/// A pending word, as a token sequence: nothing if it is empty.
pub open spec fn flush(cur: Seq<char>) -> Seq<Seq<char>> {
    if cur.len() == 0 {
        Seq::empty()
    } else {
        seq![cur]
    }
}

/// The whitespace-separated words of `s`, given the partial word `cur` read
/// so far.
pub open spec fn tokens_from(s: Seq<char>, cur: Seq<char>) -> Seq<Seq<char>>
    decreases s.len(),
{
    if s.len() == 0 {
        flush(cur)
    } else if is_space(s[0]) {
        flush(cur) + tokens_from(s.skip(1), Seq::empty())
    } else {
        tokens_from(s.skip(1), cur.push(s[0]))
    }
}

/// The whitespace-separated words of `s`, in order, empty words discarded.
pub open spec fn tokens_of(s: Seq<char>) -> Seq<Seq<char>> {
    tokens_from(s, Seq::empty())
}

/// The tokens of a raw query: lowercased, then split on whitespace.
pub open spec fn query_tokens(term: Seq<char>) -> Seq<Seq<char>> {
    tokens_of(lower_of(term))
}

/// The literal token prefix restricting a search to the tags.
pub open spec fn tag_prefix() -> Seq<char> {
    "tag:"@
}

/// Some tag of `tags`, lowercased, contains `x` as a substring.
pub open spec fn any_tag_contains(tags: Seq<Seq<char>>, x: Seq<char>) -> bool {
    exists|k: int| 0 <= k < tags.len() && has_substring(lower_of(tags[k]), x)
}

/// The group matches one (already lowercased) query token.
pub open spec fn token_matches(g: GroupModel, tok: Seq<char>) -> bool {
    if is_prefix(tag_prefix(), tok) {
        any_tag_contains(g.tags, tok.skip(tag_prefix().len() as int))
    } else {
        has_substring(lower_of(g.name), tok) || has_substring(lower_of(g.description), tok)
            || any_tag_contains(g.tags, tok)
    }
}

/// The group matches every token of the query.
pub open spec fn group_retained(g: GroupModel, toks: Seq<Seq<char>>) -> bool {
    forall|j: int| 0 <= j < toks.len() ==> token_matches(g, toks[j])
}

/// The groups retained by the token list, in their original order.
pub open spec fn filtered_models(gs: Seq<GroupModel>, toks: Seq<Seq<char>>) -> Seq<GroupModel>
    decreases gs.len(),
{
    if gs.len() == 0 {
        Seq::empty()
    } else if group_retained(gs[0], toks) {
        seq![gs[0]] + filtered_models(gs.skip(1), toks)
    } else {
        filtered_models(gs.skip(1), toks)
    }
}

/// The value of an optional raw search term.
pub open spec fn term_view(term: &Option<String>) -> Option<Seq<char>> {
    match term {
        Option::Some(t) => Option::Some(t@),
        Option::None => Option::None,
    }
}

/// The groups the filter keeps for an optional raw search term.
pub open spec fn filtered_of(gs: Seq<GroupModel>, term: Option<Seq<char>>) -> Seq<GroupModel> {
    match term {
        Option::Some(t) => filtered_models(gs, query_tokens(t)),
        Option::None => gs,
    }
}

/// The sequences a vector of character vectors holds.
pub open spec fn seqs_of(toks: Seq<Vec<char>>) -> Seq<Seq<char>> {
    toks.map_values(|t: Vec<char>| t@)
}

// ---------------------------------------------------------------------------
// General laws of the filter
// ---------------------------------------------------------------------------

/// An element stands in `seq![a] + b` iff it is `a` or stands in `b`.
proof fn lemma_cons_contains<A>(a: A, b: Seq<A>, x: A)
    ensures
        (seq![a] + b).contains(x) <==> (x == a || b.contains(x)),
{
    if (seq![a] + b).contains(x) {
        let i = choose|i: int| 0 <= i < (seq![a] + b).len() && (seq![a] + b)[i] == x;
        if i > 0 {
            assert(b[i - 1] == x);
            assert(b.contains(x));
        }
    }
    if x == a {
        assert((seq![a] + b)[0] == x);
        assert((seq![a] + b).contains(x));
    }
    if b.contains(x) {
        let i = choose|i: int| 0 <= i < b.len() && b[i] == x;
        assert((seq![a] + b)[i + 1] == x);
        assert((seq![a] + b).contains(x));
    }
}

/// A token list that every group matches keeps the whole sequence, in its
/// original order.
proof fn lemma_filter_retains_all(gs: Seq<GroupModel>, toks: Seq<Seq<char>>)
    requires
        forall|i: int| 0 <= i < gs.len() ==> group_retained(#[trigger] gs[i], toks),
    ensures
        filtered_models(gs, toks) == gs,
    decreases gs.len(),
{
    if gs.len() > 0 {
        lemma_filter_retains_all(gs.skip(1), toks);
        assert(seq![gs[0]] + gs.skip(1) =~= gs);
    }
}

/// An absent query, or one whose lowercased form splits into no tokens,
/// keeps every group, in its original order.
pub proof fn lemma_empty_query_keeps_all(gs: Seq<GroupModel>, term: Option<Seq<char>>)
    requires
        match term {
            Option::Some(t) => query_tokens(t).len() == 0,
            Option::None => true,
        },
    ensures
        filtered_of(gs, term) == gs,
{
    match term {
        Option::Some(t) => {
            lemma_filter_retains_all(gs, query_tokens(t));
        },
        Option::None => {},
    }
}

/// The groups with at least one tag whose lowercased form contains `x`, in
/// their original order.
pub open spec fn tag_filtered(gs: Seq<GroupModel>, x: Seq<char>) -> Seq<GroupModel>
    decreases gs.len(),
{
    if gs.len() == 0 {
        Seq::empty()
    } else if any_tag_contains(gs[0].tags, x) {
        seq![gs[0]] + tag_filtered(gs.skip(1), x)
    } else {
        tag_filtered(gs.skip(1), x)
    }
}

/// A query consisting of the single token `tag:` + `x` retains exactly the
/// groups with at least one tag whose lowercased form contains `x`, whatever
/// their names and descriptions hold.
pub proof fn lemma_tag_token_filter(gs: Seq<GroupModel>, toks: Seq<Seq<char>>, x: Seq<char>)
    requires
        toks == seq![tag_prefix() + x],
    ensures
        filtered_models(gs, toks) == tag_filtered(gs, x),
    decreases gs.len(),
{
    let tok = tag_prefix() + x;
    assert(tok.subrange(0, tag_prefix().len() as int) =~= tag_prefix());
    assert(is_prefix(tag_prefix(), tok));
    assert(tok.skip(tag_prefix().len() as int) =~= x);
    if gs.len() > 0 {
        assert(toks[0] == tok);
        assert(group_retained(gs[0], toks) == any_tag_contains(gs[0].tags, x)) by {
            if any_tag_contains(gs[0].tags, x) {
                assert(forall|j: int| 0 <= j < toks.len() ==> token_matches(
                    gs[0],
                    #[trigger] toks[j],
                ));
            }
        }
        lemma_tag_token_filter(gs.skip(1), toks, x);
    }
}

/// A group stands in the filtered sequence iff it stands in the input and
/// satisfies every token's match condition.
pub proof fn lemma_and_across_tokens(gs: Seq<GroupModel>, toks: Seq<Seq<char>>, g: GroupModel)
    ensures
        filtered_models(gs, toks).contains(g) <==> (gs.contains(g) && group_retained(g, toks)),
    decreases gs.len(),
{
    if gs.len() == 0 {
    } else {
        lemma_and_across_tokens(gs.skip(1), toks, g);
        assert(gs =~= seq![gs[0]] + gs.skip(1));
        lemma_cons_contains(gs[0], gs.skip(1), g);
        if group_retained(gs[0], toks) {
            lemma_cons_contains(gs[0], filtered_models(gs.skip(1), toks), g);
        }
    }
}

// ---------------------------------------------------------------------------
// Executable filter
// ---------------------------------------------------------------------------

/// Splits an (already lowercased) query into its whitespace-separated words.
pub fn tokenize(q: &Vec<char>) -> (toks: Vec<Vec<char>>)
    ensures
        seqs_of(toks@) == tokens_of(q@),
{
    let mut toks: Vec<Vec<char>> = Vec::new();
    let mut cur: Vec<char> = Vec::new();
    let mut i: usize = 0;
    assert(q@.skip(0) =~= q@);
    assert(seqs_of(toks@) + tokens_from(q@, cur@) =~= tokens_from(q@, cur@));
    while i < q.len()
        invariant
            i <= q@.len(),
            tokens_of(q@) == seqs_of(toks@) + tokens_from(q@.skip(i as int), cur@),
        decreases q@.len() - i,
    {
        let c = q[i];
        assert(q@.skip(i as int)[0] == c);
        assert(q@.skip(i as int).skip(1) =~= q@.skip(i + 1));
        if space_char(c) {
            assert(tokens_from(q@.skip(i as int), cur@) == flush(cur@) + tokens_from(
                q@.skip(i + 1),
                Seq::empty(),
            ));
            let ghost toks0 = toks@;
            let ghost cur0 = cur@;
            if cur.len() > 0 {
                toks.push(cur);
                cur = Vec::new();
                assert(seqs_of(toks@) =~= seqs_of(toks0) + flush(cur0));
            } else {
                assert(seqs_of(toks@) =~= seqs_of(toks0) + flush(cur0));
                assert(cur0 =~= Seq::<char>::empty());
            }
            assert((seqs_of(toks0) + flush(cur0)) + tokens_from(q@.skip(i + 1), Seq::empty())
                =~= seqs_of(toks0) + (flush(cur0) + tokens_from(q@.skip(i + 1), Seq::empty())));
        } else {
            let ghost cur0 = cur@;
            cur.push(c);
            assert(tokens_from(q@.skip(i as int), cur0) == tokens_from(
                q@.skip(i + 1),
                cur0.push(c),
            ));
        }
        i = i + 1;
    }
    assert(q@.skip(q@.len() as int) =~= Seq::<char>::empty());
    let ghost toks0 = toks@;
    let ghost cur0 = cur@;
    if cur.len() > 0 {
        toks.push(cur);
        assert(seqs_of(toks@) =~= seqs_of(toks0) + flush(cur0));
    } else {
        assert(seqs_of(toks@) =~= seqs_of(toks0) + flush(cur0));
    }
    toks
}

/// The suffix of `tok` from position `from`.
fn suffix_vec(tok: &Vec<char>, from: usize) -> (x: Vec<char>)
    requires
        from <= tok@.len(),
    ensures
        x@ == tok@.skip(from as int),
{
    let mut x: Vec<char> = Vec::new();
    let mut k: usize = from;
    while k < tok.len()
        invariant
            from <= k <= tok@.len(),
            x@ == tok@.subrange(from as int, k as int),
        decreases tok@.len() - k,
    {
        x.push(tok[k]);
        assert(tok@.subrange(from as int, k as int).push(tok@[k as int]) =~= tok@.subrange(
            from as int,
            k + 1,
        ));
        k = k + 1;
    }
    assert(tok@.subrange(from as int, tok@.len() as int) =~= tok@.skip(from as int));
    x
}

/// Some tag, lowercased, contains `x`.
fn tags_contain(tags: &Vec<String>, x: &Vec<char>) -> (b: bool)
    ensures
        b == any_tag_contains(tags.deep_view(), x@),
{
    let mut k: usize = 0;
    while k < tags.len()
        invariant
            k <= tags@.len(),
            forall|j: int| 0 <= j < k ==> !has_substring(
                #[trigger] lower_of(tags.deep_view()[j]),
                x@,
            ),
        decreases tags@.len() - k,
    {
        let tl = lowercase(tags[k].as_str());
        let tlc = to_chars(tl.as_str());
        assert(tags.deep_view()[k as int] == tags@[k as int]@);
        if contains_sub(&tlc, x) {
            assert(any_tag_contains(tags.deep_view(), x@));
            return true;
        }
        k = k + 1;
    }
    false
}

/// The group matches one (already lowercased) query token.
fn token_match(g: &Group, tok: &Vec<char>) -> (b: bool)
    ensures
        b == token_matches(g@, tok@),
{
    let pref = to_chars("tag:");
    assert(is_prefix(tag_prefix(), tok@) == match_at(tok@, tag_prefix(), 0));
    if match_at_exec(tok, &pref, 0) {
        let x = suffix_vec(tok, pref.len());
        tags_contain(&g.tags, &x)
    } else {
        let nl = to_chars(lowercase(g.name.as_str()).as_str());
        if contains_sub(&nl, tok) {
            return true;
        }
        let dl = to_chars(lowercase(g.description.as_str()).as_str());
        if contains_sub(&dl, tok) {
            return true;
        }
        tags_contain(&g.tags, tok)
    }
}

/// The group matches every token.
fn group_matches(g: &Group, toks: &Vec<Vec<char>>) -> (b: bool)
    ensures
        b == group_retained(g@, seqs_of(toks@)),
{
    let mut j: usize = 0;
    while j < toks.len()
        invariant
            j <= toks@.len(),
            forall|k: int| 0 <= k < j ==> token_matches(g@, #[trigger] seqs_of(toks@)[k]),
        decreases toks@.len() - j,
    {
        assert(seqs_of(toks@)[j as int] == toks@[j as int]@);
        if !token_match(g, &toks[j]) {
            assert(!group_retained(g@, seqs_of(toks@)));
            return false;
        }
        j = j + 1;
    }
    true
}

/// Keeps the groups that match every token of the query, in their original
/// order; an absent query, or an empty one, keeps them all.
pub fn filter_groups(groups: Vec<Group>, term: &Option<String>) -> (res: Vec<Group>)
    ensures
        models_of(res@) == filtered_of(models_of(groups@), term_view(term)),
        term_view(term) matches Option::None ==> res@ == groups@,
        (match term {
            Option::Some(t) => t@.len() == 0 ==> res@ == groups@,
            Option::None => true,
        }),
{
    match term {
        Option::None => groups,
        Option::Some(t) => {
            let tq = lowercase(t.as_str());
            let qc = to_chars(tq.as_str());
            let toks = tokenize(&qc);
            let ghost tokss = seqs_of(toks@);
            let ghost orig = groups@;
            let mut rest = groups;
            let mut res: Vec<Group> = Vec::new();
            proof {
                assert(models_of(res@) =~= Seq::<GroupModel>::empty());
                assert(models_of(res@) + filtered_models(models_of(rest@), tokss)
                    =~= filtered_models(models_of(rest@), tokss));
            }
            while rest.len() > 0
                invariant
                    tokss == seqs_of(toks@),
                    filtered_models(models_of(orig), tokss) == models_of(res@)
                        + filtered_models(models_of(rest@), tokss),
                    tokss.len() == 0 ==> orig == res@ + rest@,
                decreases rest@.len(),
            {
                let ghost rest0 = rest@;
                let ghost res0 = res@;
                let g = rest.remove(0);
                proof {
                    assert(g == rest0[0]);
                    assert(rest@ =~= rest0.skip(1));
                    assert(models_of(rest0)[0] == g@);
                    assert(models_of(rest0).skip(1) =~= models_of(rest@));
                    assert(models_of(rest0).len() == rest0.len());
                }
                if group_matches(&g, &toks) {
                    res.push(g);
                    proof {
                        assert(filtered_models(models_of(rest0), tokss) == seq![g@]
                            + filtered_models(models_of(rest@), tokss));
                        assert(models_of(res@) =~= models_of(res0) + seq![g@]);
                        assert((models_of(res0) + seq![g@]) + filtered_models(
                            models_of(rest@),
                            tokss,
                        ) =~= models_of(res0) + (seq![g@] + filtered_models(
                            models_of(rest@),
                            tokss,
                        )));
                        if tokss.len() == 0 {
                            assert(res@ + rest@ =~= res0 + rest0);
                        }
                    }
                } else {
                    proof {
                        assert(!group_retained(g@, tokss));
                        assert(filtered_models(models_of(rest0), tokss) == filtered_models(
                            models_of(rest@),
                            tokss,
                        ));
                        assert(tokss.len() > 0);
                    }
                }
            }
            proof {
                assert(models_of(rest@) =~= Seq::<GroupModel>::empty());
                assert(filtered_models(models_of(rest@), tokss)
                    =~= Seq::<GroupModel>::empty());
                assert(models_of(res@) + Seq::<GroupModel>::empty() =~= models_of(res@));
                assert(tokss == query_tokens(t@));
                if t@.len() == 0 {
                    assert(lower_of(t@).len() == 0);
                    assert(qc@ =~= Seq::<char>::empty());
                    assert(tokss.len() == 0);
                    assert(res@ + rest@ =~= res@);
                }
            }
            res
        },
    }
}

} // verus!
