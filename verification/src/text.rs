use vstd::prelude::*;

verus! {

// ---------------------------------------------------------------------------
// Character-sequence model of templates.
//
// A placeholder token is a substring of the form `<`, one or more non-`>`
// characters, `>` (shortest match, no nesting).  The spec functions here give
// the left-to-right, non-overlapping scan for such tokens, substring search,
// and first-occurrence replacement, all over `Seq<char>`.
// ---------------------------------------------------------------------------

/// Least index `q` with `i <= q < s.len()` and `s[q] == '>'`, if any.
pub open spec fn first_close_from(s: Seq<char>, i: int) -> Option<int>
    decreases s.len() - i,
{
    if i < 0 || i >= s.len() {
        None
    } else if s[i] == '>' {
        Some(i)
    } else {
        first_close_from(s, i + 1)
    }
}

/// A placeholder token occupies `s[p ..= q]`: it opens at `p`, closes at `q`,
/// encloses at least one character, and none of the enclosed characters is `>`.
pub open spec fn token_at(s: Seq<char>, p: int, q: int) -> bool {
    &&& 0 <= p
    &&& p + 2 <= q < s.len()
    &&& s[p] == '<'
    &&& s[q] == '>'
    &&& forall|j: int| p < j < q ==> s[j] != '>'
}

/// The token texts found by scanning `s` left to right from index `i`:
/// at a `<`, the token closes at the first following `>` (provided at least
/// one character lies between); everything else is skipped, and the scan
/// resumes right after each token found.
pub open spec fn tokens_from(s: Seq<char>, i: int) -> Seq<Seq<char>>
    decreases s.len() - i,
{
    if i < 0 || i >= s.len() {
        Seq::empty()
    } else if s[i] == '<' {
        match first_close_from(s, i + 1) {
            Some(q) => {
                if i + 2 <= q && q + 1 <= s.len() {
                    seq![s.subrange(i, q + 1)] + tokens_from(s, q + 1)
                } else {
                    tokens_from(s, i + 1)
                }
            },
            None => tokens_from(s, i + 1),
        }
    } else {
        tokens_from(s, i + 1)
    }
}

/// All placeholder token texts of `s`, in order of occurrence.
pub open spec fn tokens_of(s: Seq<char>) -> Seq<Seq<char>> {
    tokens_from(s, 0)
}

/// Shape of every scanned token: angle-bracket delimited, non-empty inside,
/// and no `>` before the closing one.
pub open spec fn token_wf(t: Seq<char>) -> bool {
    &&& t.len() >= 3
    &&& t[0] == '<'
    &&& t[t.len() - 1] == '>'
    &&& forall|j: int| 0 < j < t.len() - 1 ==> t[j] != '>'
}

/// `pat` occurs in `s` at index `i`.
pub open spec fn match_at(s: Seq<char>, pat: Seq<char>, i: int) -> bool {
    &&& 0 <= i
    &&& i + pat.len() <= s.len()
    &&& forall|j: int| 0 <= j < pat.len() ==> s[i + j] == pat[j]
}

/// Least index `>= i` at which `pat` occurs in `s`, if any.
pub open spec fn find_from(s: Seq<char>, pat: Seq<char>, i: int) -> Option<int>
    decreases s.len() - i,
{
    if i < 0 || i + pat.len() > s.len() {
        None
    } else if match_at(s, pat, i) {
        Some(i)
    } else {
        find_from(s, pat, i + 1)
    }
}

/// `s` with the first occurrence of `pat` (if any) replaced by `v`.
pub open spec fn replace_first(s: Seq<char>, pat: Seq<char>, v: Seq<char>) -> Seq<char> {
    match find_from(s, pat, 0) {
        Some(i) => s.subrange(0, i) + v + s.subrange(i + pat.len(), s.len() as int),
        None => s,
    }
}

pub open spec fn has_char(s: Seq<char>, c: char) -> bool {
    exists|j: int| 0 <= j < s.len() && s[j] == c
}

/// A value that introduces no angle bracket when spliced into a template.
pub open spec fn angle_free(s: Seq<char>) -> bool {
    !has_char(s, '<') && !has_char(s, '>')
}

// ---------------------------------------------------------------------------
// Properties of the scan.
// ---------------------------------------------------------------------------

pub proof fn lemma_first_close_props(s: Seq<char>, i: int)
    requires
        0 <= i,
    ensures
        match first_close_from(s, i) {
            Some(q) => i <= q < s.len() && s[q] == '>' && (forall|j: int| i <= j < q ==> s[j] != '>'),
            None => forall|j: int| i <= j < s.len() ==> s[j] != '>',
        },
    decreases s.len() - i,
{
    if i >= s.len() {
    } else if s[i] == '>' {
    } else {
        lemma_first_close_props(s, i + 1);
    }
}

/// Every scanned token has the token shape.
pub proof fn lemma_tokens_wf(s: Seq<char>, i: int)
    requires
        0 <= i,
    ensures
        forall|k: int| 0 <= k < tokens_from(s, i).len() ==> token_wf(#[trigger] tokens_from(s, i)[k]),
    decreases s.len() - i,
{
    if i >= s.len() {
    } else if s[i] == '<' {
        lemma_first_close_props(s, i + 1);
        match first_close_from(s, i + 1) {
            Some(q) => {
                if i + 2 <= q && q + 1 <= s.len() {
                    lemma_tokens_wf(s, q + 1);
                    let t = s.subrange(i, q + 1);
                    assert(token_wf(t));
                    assert forall|k: int| 0 <= k < tokens_from(s, i).len() implies token_wf(
                        #[trigger] tokens_from(s, i)[k],
                    ) by {
                        if k == 0 {
                            assert(tokens_from(s, i)[k] == t);
                        } else {
                            assert(tokens_from(s, i)[k] == tokens_from(s, q + 1)[k - 1]);
                        }
                    }
                } else {
                    lemma_tokens_wf(s, i + 1);
                    assert forall|k: int| 0 <= k < tokens_from(s, i).len() implies token_wf(
                        #[trigger] tokens_from(s, i)[k],
                    ) by {
                        assert(tokens_from(s, i)[k] == tokens_from(s, i + 1)[k]);
                    }
                }
            },
            None => {
                lemma_tokens_wf(s, i + 1);
                assert forall|k: int| 0 <= k < tokens_from(s, i).len() implies token_wf(
                    #[trigger] tokens_from(s, i)[k],
                ) by {
                    assert(tokens_from(s, i)[k] == tokens_from(s, i + 1)[k]);
                }
            },
        }
    } else {
        lemma_tokens_wf(s, i + 1);
        assert forall|k: int| 0 <= k < tokens_from(s, i).len() implies token_wf(
            #[trigger] tokens_from(s, i)[k],
        ) by {
            assert(tokens_from(s, i)[k] == tokens_from(s, i + 1)[k]);
        }
    }
}

/// Where no token shape occurs at or after `i`, the scan finds nothing.
pub proof fn lemma_no_token_shape_empty(s: Seq<char>, i: int)
    requires
        0 <= i,
        forall|p: int, q: int| i <= p ==> !token_at(s, p, q),
    ensures
        tokens_from(s, i).len() == 0,
    decreases s.len() - i,
{
    if i >= s.len() {
    } else if s[i] == '<' {
        lemma_first_close_props(s, i + 1);
        match first_close_from(s, i + 1) {
            Some(q) => {
                if i + 2 <= q && q + 1 <= s.len() {
                    assert(token_at(s, i, q));
                    assert(false);
                } else {
                    lemma_no_token_shape_empty(s, i + 1);
                }
            },
            None => {
                lemma_no_token_shape_empty(s, i + 1);
            },
        }
    } else {
        lemma_no_token_shape_empty(s, i + 1);
    }
}

pub proof fn lemma_find_from_props(s: Seq<char>, pat: Seq<char>, i: int)
    requires
        0 <= i,
    ensures
        match find_from(s, pat, i) {
            Some(j) => i <= j && match_at(s, pat, j) && (forall|k: int| i <= k < j ==> !match_at(s, pat, k)),
            None => forall|k: int| i <= k ==> !match_at(s, pat, k),
        },
    decreases s.len() - i,
{
    if i + pat.len() > s.len() {
        assert forall|k: int| i <= k implies !match_at(s, pat, k) by {}
    } else if match_at(s, pat, i) {
    } else {
        lemma_find_from_props(s, pat, i + 1);
    }
}

// ---------------------------------------------------------------------------
// Splicing: the intended meaning of substitution.  The template is rebuilt
// character by character, except that the k-th token span becomes the k-th
// value.  The lemmas below show that repeated first-occurrence replacement
// computes exactly this, provided the values hold no angle bracket.
// ---------------------------------------------------------------------------

/// The template from index `i` on, with the k-th token span replaced by the
/// k-th remaining value and every other character kept.
pub open spec fn splice_from(t: Seq<char>, i: int, vs: Seq<Seq<char>>) -> Seq<char>
    decreases t.len() - i,
{
    if i < 0 || i >= t.len() {
        Seq::empty()
    } else if t[i] == '<' {
        match first_close_from(t, i + 1) {
            Some(q) => {
                if i + 2 <= q && q + 1 <= t.len() {
                    if vs.len() > 0 {
                        vs[0] + splice_from(t, q + 1, vs.drop_first())
                    } else {
                        t.subrange(i, q + 1) + splice_from(t, q + 1, vs)
                    }
                } else {
                    seq![t[i]] + splice_from(t, i + 1, vs)
                }
            },
            None => seq![t[i]] + splice_from(t, i + 1, vs),
        }
    } else {
        seq![t[i]] + splice_from(t, i + 1, vs)
    }
}

/// Repeated first-occurrence replacement: one pattern and one value per
/// step, each applied to the result of the step before.
pub open spec fn subst_texts(cmd: Seq<char>, pats: Seq<Seq<char>>, vs: Seq<Seq<char>>) -> Seq<char>
    decreases pats.len(),
{
    if pats.len() == 0 || vs.len() == 0 {
        cmd
    } else {
        subst_texts(replace_first(cmd, pats[0], vs[0]), pats.drop_first(), vs.drop_first())
    }
}

/// Every `<` in the prefix `d` is followed at once by `>`, inside `d` or by
/// the first character of `rest`: no token can start inside `d`.
pub open spec fn sealed(d: Seq<char>, rest: Seq<char>) -> bool {
    forall|p: int|
        0 <= p < d.len() && (#[trigger] d[p]) == '<' ==> ((p + 1 < d.len() && d[p + 1] == '>') || (
        p + 1 == d.len() && rest.len() > 0 && rest[0] == '>'))
}

/// No `>` stands after position `p`.
pub open spec fn no_close_after(s: Seq<char>, p: int) -> bool {
    forall|q: int| p < q < s.len() ==> s[q] != '>'
}

/// Every `<` is followed at once by `>`, or never followed by `>` at all:
/// such a string holds no token.
pub open spec fn benign(s: Seq<char>) -> bool {
    forall|p: int|
        0 <= p < s.len() && (#[trigger] s[p]) == '<' ==> ((p + 1 < s.len() && s[p + 1] == '>')
            || no_close_after(s, p))
}

/// Without a `>` at or after `i`, the scan from `i` finds nothing.
pub proof fn lemma_no_close_no_tokens(s: Seq<char>, i: int)
    requires
        0 <= i,
        forall|m: int| i <= m < s.len() ==> s[m] != '>',
    ensures
        tokens_from(s, i).len() == 0,
    decreases s.len() - i,
{
    if i >= s.len() {
    } else if s[i] == '<' {
        lemma_first_close_props(s, i + 1);
        match first_close_from(s, i + 1) {
            Some(q) => {
                assert(false);
            },
            None => {
                lemma_no_close_no_tokens(s, i + 1);
            },
        }
    } else {
        lemma_no_close_no_tokens(s, i + 1);
    }
}

/// With no values left, splicing rebuilds the template verbatim.
pub proof fn lemma_splice_no_values(t: Seq<char>, i: int)
    requires
        0 <= i <= t.len(),
    ensures
        splice_from(t, i, Seq::empty()) =~= t.subrange(i, t.len() as int),
    decreases t.len() - i,
{
    if i >= t.len() {
    } else if t[i] == '<' {
        match first_close_from(t, i + 1) {
            Some(q) => {
                if i + 2 <= q && q + 1 <= t.len() {
                    lemma_splice_no_values(t, q + 1);
                } else {
                    lemma_splice_no_values(t, i + 1);
                }
            },
            None => {
                lemma_splice_no_values(t, i + 1);
            },
        }
    } else {
        lemma_splice_no_values(t, i + 1);
    }
}

/// Splicing angle-free values over every token leaves a benign string:
/// each surviving `<` was already harmless in the template, and no value
/// introduces a bracket.
pub proof fn lemma_splice_benign(t: Seq<char>, i: int, vs: Seq<Seq<char>>)
    requires
        0 <= i <= t.len(),
        vs.len() == tokens_from(t, i).len(),
        forall|k: int| 0 <= k < vs.len() ==> angle_free(#[trigger] vs[k]),
    ensures
        benign(splice_from(t, i, vs)),
    decreases t.len() - i,
{
    let r = splice_from(t, i, vs);
    if i == t.len() {
    } else if t[i] == '<' {
        lemma_first_close_props(t, i + 1);
        match first_close_from(t, i + 1) {
            Some(q) => {
                if i + 2 <= q && q + 1 <= t.len() {
                    let v0 = vs[0];
                    let tail = splice_from(t, q + 1, vs.drop_first());
                    assert(vs.len() > 0);
                    assert(r == v0 + tail);
                    assert forall|k: int| 0 <= k < vs.drop_first().len() implies angle_free(
                        #[trigger] vs.drop_first()[k],
                    ) by {
                        assert(vs.drop_first()[k] == vs[k + 1]);
                    }
                    lemma_splice_benign(t, q + 1, vs.drop_first());
                    assert forall|p: int|
                        0 <= p < r.len() && (#[trigger] r[p]) == '<' implies ((p + 1 < r.len()
                        && r[p + 1] == '>') || no_close_after(r, p)) by {
                        if p < v0.len() {
                            assert(has_char(v0, '<'));
                            assert(false);
                        } else {
                            let p2 = p - v0.len();
                            assert(tail[p2] == '<');
                            if p2 + 1 < tail.len() && tail[p2 + 1] == '>' {
                                assert(r[p + 1] == '>');
                            } else {
                                assert(no_close_after(tail, p2));
                                assert forall|q2: int| p < q2 < r.len() implies r[q2] != '>' by {
                                    assert(r[q2] == tail[q2 - v0.len()]);
                                }
                            }
                        }
                    }
                } else {
                    // `<>`: the kept `<` is closed at once by the kept `>`
                    assert(q == i + 1);
                    let tail = splice_from(t, i + 1, vs);
                    assert(r == seq![t[i]] + tail);
                    lemma_splice_benign(t, i + 1, vs);
                    assert(t[i + 1] == '>');
                    assert(tail == seq![t[i + 1]] + splice_from(t, i + 2, vs));
                    assert(tail[0] == '>');
                    assert forall|p: int|
                        0 <= p < r.len() && (#[trigger] r[p]) == '<' implies ((p + 1 < r.len()
                        && r[p + 1] == '>') || no_close_after(r, p)) by {
                        if p == 0 {
                            assert(r[1] == tail[0]);
                        } else {
                            let p2 = p - 1;
                            assert(tail[p2] == '<');
                            if p2 + 1 < tail.len() && tail[p2 + 1] == '>' {
                                assert(r[p + 1] == '>');
                            } else {
                                assert(no_close_after(tail, p2));
                                assert forall|q2: int| p < q2 < r.len() implies r[q2] != '>' by {
                                    assert(r[q2] == tail[q2 - 1]);
                                }
                            }
                        }
                    }
                }
            },
            None => {
                // no '>' from i on: nothing after any kept '<' closes it
                lemma_no_close_no_tokens(t, i);
                assert(vs.len() == 0);
                assert(vs =~= Seq::<Seq<char>>::empty());
                lemma_splice_no_values(t, i);
                assert(r == t.subrange(i, t.len() as int));
                assert forall|p: int|
                    0 <= p < r.len() && (#[trigger] r[p]) == '<' implies ((p + 1 < r.len() && r[p
                    + 1] == '>') || no_close_after(r, p)) by {
                    assert forall|q2: int| p < q2 < r.len() implies r[q2] != '>' by {
                        assert(r[q2] == t[i + q2]);
                    }
                }
            },
        }
    } else {
        let tail = splice_from(t, i + 1, vs);
        assert(r == seq![t[i]] + tail);
        lemma_splice_benign(t, i + 1, vs);
        assert forall|p: int|
            0 <= p < r.len() && (#[trigger] r[p]) == '<' implies ((p + 1 < r.len() && r[p + 1]
            == '>') || no_close_after(r, p)) by {
            if p >= 1 {
                let p2 = p - 1;
                assert(tail[p2] == '<');
                if p2 + 1 < tail.len() && tail[p2 + 1] == '>' {
                    assert(r[p + 1] == '>');
                } else {
                    assert(no_close_after(tail, p2));
                    assert forall|q2: int| p < q2 < r.len() implies r[q2] != '>' by {
                        assert(r[q2] == tail[q2 - 1]);
                    }
                }
            }
        }
    }
}

/// A token never has a shape inside a benign string.
pub proof fn lemma_benign_no_tokens(s: Seq<char>)
    requires
        benign(s),
    ensures
        tokens_of(s).len() == 0,
{
    assert forall|p: int, q: int| !token_at(s, p, q) by {
        if token_at(s, p, q) {
            assert(s[p] == '<');
            if p + 1 < s.len() && s[p + 1] == '>' {
                assert(s[p + 1] != '>');
            } else {
                assert(no_close_after(s, p));
                assert(s[q] != '>');
            }
        }
    }
    lemma_no_token_shape_empty(s, 0);
}

/// Repeated first-occurrence replacement on `d + t[i..]`, with the patterns
/// being exactly the scanned tokens of `t` from `i`, computes the splice:
/// each value lands on its own token span and every other character stays.
/// The values must be angle-free, and no token may be able to start inside
/// the already-substituted prefix `d`.
pub proof fn lemma_subst_splice(t: Seq<char>, i: int, d: Seq<char>, vs: Seq<Seq<char>>)
    requires
        0 <= i <= t.len(),
        vs.len() == tokens_from(t, i).len(),
        forall|k: int| 0 <= k < vs.len() ==> angle_free(#[trigger] vs[k]),
        sealed(d, t.subrange(i, t.len() as int)),
    ensures
        subst_texts(d + t.subrange(i, t.len() as int), tokens_from(t, i), vs) == d + splice_from(
            t,
            i,
            vs,
        ),
    decreases t.len() - i,
{
    let rest = t.subrange(i, t.len() as int);
    let w = d + rest;
    if i == t.len() {
        assert(tokens_from(t, i).len() == 0);
        assert(w =~= d + splice_from(t, i, vs));
    } else if t[i] == '<' {
        lemma_first_close_props(t, i + 1);
        match first_close_from(t, i + 1) {
            Some(q) => {
                if i + 2 <= q && q + 1 <= t.len() {
                    // a token spans i..=q, and vs[0] fills it
                    let tok = t.subrange(i, q + 1);
                    let toks = tokens_from(t, i);
                    assert(toks == seq![tok] + tokens_from(t, q + 1));
                    let v0 = vs[0];
                    // tok occurs in w at d.len() ...
                    assert(match_at(w, tok, d.len() as int)) by {
                        assert forall|j: int| 0 <= j < tok.len() implies w[d.len() + j]
                            == tok[j] by {
                            assert(w[d.len() + j] == rest[j]);
                            assert(rest[j] == t[i + j]);
                        }
                    }
                    // ... and nowhere earlier: the prefix is sealed and a
                    // token's second character is never '>'
                    assert(rest[0] == t[i]);
                    assert forall|p: int| 0 <= p < d.len() implies !match_at(w, tok, p) by {
                        if match_at(w, tok, p) {
                            assert(w[p + 0] == tok[0]);
                            assert(tok[0] == t[i]);
                            assert(d[p] == '<');
                            assert(p + 1 < d.len() && d[p + 1] == '>');
                            assert(w[p + 1] == tok[1]);
                            assert(tok[1] == t[i + 1]);
                            assert(t[i + 1] != '>');
                            assert(false);
                        }
                    }
                    lemma_find_from_props(w, tok, 0);
                    assert(find_from(w, tok, 0) == Some(d.len() as int)) by {
                        match find_from(w, tok, 0) {
                            Some(j) => {
                                assert(!(j < d.len()));
                                assert(!(j > d.len()));
                            },
                            None => {
                                assert(!match_at(w, tok, d.len() as int));
                                assert(false);
                            },
                        }
                    }
                    let w2 = replace_first(w, tok, v0);
                    let d2 = d + v0;
                    let rest2 = t.subrange(q + 1, t.len() as int);
                    assert(w.subrange(0, d.len() as int) =~= d);
                    assert(w.subrange((d.len() + tok.len()) as int, w.len() as int) =~= rest2);
                    assert(w2 == d2 + rest2);
                    assert(sealed(d2, rest2)) by {
                        assert forall|p: int|
                            0 <= p < d2.len() && (#[trigger] d2[p]) == '<' implies ((p + 1
                            < d2.len() && d2[p + 1] == '>') || (p + 1 == d2.len() && rest2.len() > 0
                            && rest2[0] == '>')) by {
                            if p < d.len() {
                                assert(d[p] == '<');
                                assert(p + 1 < d.len() && d[p + 1] == '>');
                                assert(d2[p + 1] == '>');
                            } else {
                                assert(d2[p] == v0[p - d.len()]);
                                assert(has_char(v0, '<'));
                                assert(false);
                            }
                        }
                    }
                    assert(vs.drop_first().len() == tokens_from(t, q + 1).len());
                    assert forall|k: int| 0 <= k < vs.drop_first().len() implies angle_free(
                        #[trigger] vs.drop_first()[k],
                    ) by {
                        assert(vs.drop_first()[k] == vs[k + 1]);
                    }
                    lemma_subst_splice(t, q + 1, d2, vs.drop_first());
                    assert(toks.drop_first() =~= tokens_from(t, q + 1));
                    assert(subst_texts(w, toks, vs) == subst_texts(
                        w2,
                        tokens_from(t, q + 1),
                        vs.drop_first(),
                    ));
                    assert(splice_from(t, i, vs) == v0 + splice_from(t, q + 1, vs.drop_first()));
                    assert(d2 + splice_from(t, q + 1, vs.drop_first()) =~= d + splice_from(
                        t,
                        i,
                        vs,
                    ));
                } else {
                    // `<>`: no token starts at i, the scan moves one on
                    assert(q == i + 1);
                    assert(t[q] == '>');
                    let d2 = d + seq![t[i]];
                    let rest2 = t.subrange(i + 1, t.len() as int);
                    assert(rest2.len() > 0 && rest2[0] == '>');
                    assert(rest[0] == t[i]);
                    assert(sealed(d2, rest2)) by {
                        assert forall|p: int|
                            0 <= p < d2.len() && (#[trigger] d2[p]) == '<' implies ((p + 1
                            < d2.len() && d2[p + 1] == '>') || (p + 1 == d2.len() && rest2.len() > 0
                            && rest2[0] == '>')) by {
                            if p < d.len() {
                                assert(d[p] == '<');
                                assert(p + 1 < d.len() && d[p + 1] == '>');
                                assert(d2[p + 1] == '>');
                            }
                        }
                    }
                    assert(tokens_from(t, i) == tokens_from(t, i + 1));
                    lemma_subst_splice(t, i + 1, d2, vs);
                    assert(w =~= d2 + rest2);
                    assert(subst_texts(w, tokens_from(t, i), vs) == subst_texts(
                        d2 + rest2,
                        tokens_from(t, i + 1),
                        vs,
                    ));
                    assert(splice_from(t, i, vs) == seq![t[i]] + splice_from(t, i + 1, vs));
                    assert(d2 + splice_from(t, i + 1, vs) =~= d + splice_from(t, i, vs));
                }
            },
            None => {
                // no '>' follows: neither tokens nor values remain
                lemma_no_close_no_tokens(t, i);
                assert(vs.len() == 0);
                assert(vs =~= Seq::<Seq<char>>::empty());
                lemma_splice_no_values(t, i);
                assert(splice_from(t, i, vs) == rest);
                assert(subst_texts(w, tokens_from(t, i), vs) == w);
            },
        }
    } else {
        let d2 = d + seq![t[i]];
        let rest2 = t.subrange(i + 1, t.len() as int);
        assert(rest[0] == t[i]);
        assert(sealed(d2, rest2)) by {
            assert forall|p: int|
                0 <= p < d2.len() && (#[trigger] d2[p]) == '<' implies ((p + 1 < d2.len() && d2[p
                + 1] == '>') || (p + 1 == d2.len() && rest2.len() > 0 && rest2[0] == '>')) by {
                if p < d.len() {
                    assert(d[p] == '<');
                    if p + 1 < d.len() && d[p + 1] == '>' {
                        assert(d2[p + 1] == '>');
                    } else {
                        assert(p + 1 == d.len() && rest.len() > 0 && rest[0] == '>');
                        assert(d2[p + 1] == t[i]);
                        assert(t[i] == '>');
                    }
                } else {
                    assert(d2[p] == t[i]);
                    assert(false);
                }
            }
        }
        assert(tokens_from(t, i) == tokens_from(t, i + 1));
        lemma_subst_splice(t, i + 1, d2, vs);
        assert(w =~= d2 + rest2);
        assert(subst_texts(w, tokens_from(t, i), vs) == subst_texts(
            d2 + rest2,
            tokens_from(t, i + 1),
            vs,
        ));
        assert(splice_from(t, i, vs) == seq![t[i]] + splice_from(t, i + 1, vs));
        assert(d2 + splice_from(t, i + 1, vs) =~= d + splice_from(t, i, vs));
    }
}

// ---------------------------------------------------------------------------
// Executable counterparts over `&str`.
// ---------------------------------------------------------------------------

/// Character-for-character string equality.
pub fn str_eq(a: &str, b: &str) -> (r: bool)
    ensures
        r == (a@ == b@),
{
    let n = a.unicode_len();
    let m = b.unicode_len();
    if n != m {
        proof {
            assert(a@.len() != b@.len());
        }
        return false;
    }
    let mut i: usize = 0;
    while i < n
        invariant
            n == a@.len(),
            n == b@.len(),
            0 <= i <= n,
            forall|j: int| 0 <= j < i ==> a@[j] == b@[j],
        decreases n - i,
    {
        let ca = a.get_char(i);
        let cb = b.get_char(i);
        if ca != cb {
            proof {
                assert(a@[i as int] != b@[i as int]);
            }
            return false;
        }
        i = i + 1;
    }
    proof {
        assert(a@ =~= b@);
    }
    true
}

/// Index of the first occurrence of `pat` in `s`, scanning left to right.
pub fn find_first(s: &str, pat: &str) -> (r: Option<usize>)
    ensures
        match r {
            Some(i) => find_from(s@, pat@, 0) == Some(i as int),
            None => find_from(s@, pat@, 0) is None,
        },
{
    let n = s.unicode_len();
    let m = pat.unicode_len();
    if m > n {
        return None;
    }
    let mut i: usize = 0;
    while i <= n - m
        invariant
            n == s@.len(),
            m == pat@.len(),
            m <= n,
            0 <= i <= n - m + 1,
            find_from(s@, pat@, 0) == find_from(s@, pat@, i as int),
        decreases n + 1 - i,
    {
        let mut j: usize = 0;
        let mut hit: bool = true;
        while j < m
            invariant
                n == s@.len(),
                m == pat@.len(),
                0 <= i <= n - m,
                0 <= j <= m,
                hit ==> forall|k: int| 0 <= k < j ==> s@[i + k] == pat@[k],
                !hit ==> !match_at(s@, pat@, i as int),
            decreases m - j,
        {
            let cs = s.get_char(i + j);
            let cp = pat.get_char(j);
            if cs != cp {
                proof {
                    assert(s@[i + j] != pat@[j as int]);
                }
                hit = false;
                j = m;
            } else {
                j = j + 1;
            }
        }
        if hit {
            proof {
                assert(match_at(s@, pat@, i as int));
            }
            return Some(i);
        }
        proof {
            assert(!match_at(s@, pat@, i as int));
        }
        i = i + 1;
    }
    proof {
        assert((i as int) + pat@.len() > s@.len());
    }
    None
}

/// Whether `pat` occurs anywhere in `s`.
pub fn str_contains(s: &str, pat: &str) -> (r: bool)
    ensures
        r == (find_from(s@, pat@, 0) is Some),
{
    match find_first(s, pat) {
        Some(_) => true,
        None => false,
    }
}

/// `s` with the first occurrence of `pat` (if any) replaced by `v`.
pub fn replace_first_str(s: &str, pat: &str, v: &str) -> (r: String)
    ensures
        r@ == replace_first(s@, pat@, v@),
{
    match find_first(s, pat) {
        Some(i) => {
            proof {
                lemma_find_from_props(s@, pat@, 0);
            }
            let n = s.unicode_len();
            let m = pat.unicode_len();
            let mut out = String::from_str(s.substring_char(0, i));
            out.append(v);
            out.append(s.substring_char(i + m, n));
            proof {
                assert(out@ =~= replace_first(s@, pat@, v@));
            }
            out
        },
        None => String::from_str(s),
    }
}

} // verus!
