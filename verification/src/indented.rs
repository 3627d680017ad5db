//! Putting line markers into a macro's tokens.
//!
//! The tokens of a macro input do not say where lines start; the source text does.  Each
//! top-level token is looked up in the source, in order, and the text skipped to reach it
//! tells whether it starts a line and how far it is indented.  A token that starts a line
//! gets a marker `__indent_<n>` before it, where `n` is its indentation in pairs of spaces.

use crate::grammar::marker_prefix;
use crate::text::{chars_of, decimal, push_decimal, push_str, string_of};
use crate::token::{Tok, TokV, dup_toks, toks_view};
use crate::types::{DslError, DslErrorV};
use vstd::prelude::*;

verus! {

/// The first position at or after `k` where `pat` occurs in `src`.
pub open spec fn find_from(src: Seq<char>, k: int, pat: Seq<char>) -> Option<int>
    decreases src.len() + 1 - k,
{
    if k < 0 || k + pat.len() > src.len() {
        None
    } else if src.subrange(k, k + pat.len()) == pat {
        Some(k)
    } else {
        find_from(src, k + 1, pat)
    }
}

/// The number of spaces the text starts with.
pub open spec fn leading_spaces(s: Seq<char>) -> nat
    decreases s.len(),
{
    if s.len() == 0 || s[0] != ' ' {
        0
    } else {
        1 + leading_spaces(s.drop_first())
    }
}

/// The text after the last line break, if there is one.
pub open spec fn after_last_newline(s: Seq<char>) -> Option<Seq<char>>
    decreases s.len(),
{
    if s.len() == 0 {
        None
    } else if s.last() == '\n' {
        Some(seq![])
    } else {
        match after_last_newline(s.drop_last()) {
            Some(rest) => Some(rest.push(s.last())),
            None => None,
        }
    }
}

/// The indentation of a token, from the text before it: none when that text (an opening
/// brace at its start aside) holds no line break, else the spaces after the last one.
pub open spec fn indent_of(prefix: Seq<char>) -> Option<nat> {
    let s = if prefix.len() > 0 && prefix[0] == '{' {
        prefix.drop_first()
    } else {
        prefix
    };
    match after_last_newline(s) {
        Some(line) => Some(leading_spaces(line)),
        None => None,
    }
}

/// The marker of a level.
pub open spec fn marker_name(level: nat) -> Seq<char> {
    marker_prefix() + decimal(level)
}

/// A top-level token of a macro input: its tokens (a group with its content) and the text
/// by which it is found in the source, when there is one.
pub struct SourceTree {
    pub toks: Vec<Tok>,
    pub text: Option<String>,
}

pub open spec fn tree_texts(v: Seq<SourceTree>) -> Seq<Option<Seq<char>>> {
    v.map_values(
        |t: SourceTree|
            match t.text {
                Some(s) => Some(s@),
                None => None,
            },
    )
}

pub open spec fn tree_toks(v: Seq<SourceTree>) -> Seq<Seq<TokV>> {
    v.map_values(|t: SourceTree| toks_view(t.toks@))
}

/// The tokens from tree `i` on, the source read from `pos`: a tree without text, or whose
/// text is not found, is left out; a tree found after a line break gets its marker first.
/// A line indented by an odd number of spaces is an error.
pub open spec fn marked_from(
    src: Seq<char>,
    texts: Seq<Option<Seq<char>>>,
    toks: Seq<Seq<TokV>>,
    i: int,
    pos: int,
) -> Result<Seq<TokV>, DslErrorV>
    decreases texts.len() - i,
{
    if i < 0 || i >= texts.len() {
        Ok(seq![])
    } else {
        match texts[i] {
            None => marked_from(src, texts, toks, i + 1, pos),
            Some(text) => match find_from(src, pos, text) {
                None => marked_from(src, texts, toks, i + 1, pos),
                Some(p) => {
                    let prefix = src.subrange(pos, p);
                    match indent_of(prefix) {
                        Some(n) => if n % 2 == 1 {
                            Err(DslErrorV::OddIndent(prefix))
                        } else {
                            match marked_from(src, texts, toks, i + 1, p + text.len()) {
                                Ok(rest) => Ok(seq![TokV::Ident(marker_name(n / 2))] + toks[i] + rest),
                                Err(e) => Err(e),
                            }
                        },
                        None => match marked_from(src, texts, toks, i + 1, p + text.len()) {
                            Ok(rest) => Ok(toks[i] + rest),
                            Err(e) => Err(e),
                        },
                    }
                },
            },
        }
    }
}

/// The tokens of a macro input with their line markers (see `marked_from`).
pub open spec fn spec_marked(src: Seq<char>, trees: Seq<SourceTree>) -> Result<Seq<TokV>, DslErrorV> {
    marked_from(src, tree_texts(trees), tree_toks(trees), 0, 0)
}

proof fn lemma_find_bounds(src: Seq<char>, k: int, pat: Seq<char>)
    ensures
        find_from(src, k, pat) matches Some(p) ==> k <= p && p + pat.len() <= src.len(),
    decreases src.len() + 1 - k,
{
    if !(k < 0 || k + pat.len() > src.len()) && src.subrange(k, k + pat.len()) != pat {
        lemma_find_bounds(src, k + 1, pat);
    }
}

/// The first position at or after `k` where `pat` occurs in `src` (see `find_from`).
fn find_in(src: &Vec<char>, k: usize, pat: &Vec<char>) -> (r: Option<usize>)
    ensures
        match r {
            Some(p) => find_from(src@, k as int, pat@) == Some(p as int) && k <= p && p + pat@.len() <= src@.len(),
            None => find_from(src@, k as int, pat@) is None,
        },
{
    let n = src.len();
    let m = pat.len();
    if m > n {
        return None;
    }
    let mut q = k;
    while q <= n - m
        invariant
            k <= q,
            m <= n,
            n == src@.len(),
            m == pat@.len(),
            find_from(src@, k as int, pat@) == find_from(src@, q as int, pat@),
        decreases n - q,
    {
        let mut e: usize = 0;
        while e < m && src[q + e] == pat[e]
            invariant
                e <= m,
                q + m <= n,
                n == src@.len(),
                m == pat@.len(),
                forall|x: int| 0 <= x < e ==> src@[q + x] == pat@[x],
            decreases m - e,
        {
            e = e + 1;
        }
        if e == m {
            assert(src@.subrange(q as int, q + m) =~= pat@);
            return Some(q);
        }
        assert(src@.subrange(q as int, q + m) != pat@) by {
            assert(src@.subrange(q as int, q + m)[e as int] == src@[q + e]);
        }
        q = q + 1;
    }
    None
}

proof fn lemma_after_newline_len(s: Seq<char>)
    ensures
        after_last_newline(s) matches Some(line) ==> line.len() <= s.len(),
    decreases s.len(),
{
    if s.len() > 0 && s.last() != '\n' {
        lemma_after_newline_len(s.drop_last());
    }
}

/// The text after the last line break of `p[start..x]`, when that break is at `j - 1`
/// (or there is none, `j == start`).
proof fn lemma_after_tail(p: Seq<char>, start: int, j: int, x: int)
    requires
        0 <= start <= j <= x <= p.len(),
        forall|y: int| j <= y < p.len() ==> p[y] != '\n',
        j > start ==> p[j - 1] == '\n',
    ensures
        after_last_newline(p.subrange(start, x)) == if j > start {
            Some(p.subrange(j, x))
        } else {
            None::<Seq<char>>
        },
    decreases x - j,
{
    if x == j {
        if j > start {
            assert(p.subrange(start, x).last() == '\n');
            assert(p.subrange(j, x) =~= Seq::<char>::empty());
        } else {
            assert(p.subrange(start, x).len() == 0);
        }
    } else {
        lemma_after_tail(p, start, j, x - 1);
        let longer = p.subrange(start, x);
        assert(longer.drop_last() =~= p.subrange(start, x - 1));
        assert(longer.last() == p[x - 1]);
        assert(p.subrange(j, x) =~= p.subrange(j, x - 1).push(p[x - 1]));
    }
}

/// The indentation of a token, from the text before it (see `indent_of`).
fn indent_count(prefix: &[char]) -> (r: Option<usize>)
    ensures
        match r {
            Some(n) => indent_of(prefix@) == Some(n as nat),
            None => indent_of(prefix@) is None,
        },
{
    let start: usize = if prefix.len() > 0 && prefix[0] == '{' {
        1
    } else {
        0
    };
    let ghost s = if prefix@.len() > 0 && prefix@[0] == '{' {
        prefix@.drop_first()
    } else {
        prefix@
    };
    assert(s =~= prefix@.subrange(start as int, prefix@.len() as int));
    // The last line break.
    let mut j = prefix.len();
    while j > start && prefix[j - 1] != '\n'
        invariant
            start <= j <= prefix@.len(),
            s == prefix@.subrange(start as int, prefix@.len() as int),
            forall|x: int| j <= x < prefix@.len() ==> prefix@[x] != '\n',
        decreases j,
    {
        j = j - 1;
    }
    proof {
        lemma_after_tail(prefix@, start as int, j as int, prefix@.len() as int);
    }
    if j == start {
        return None;
    }
    // The spaces after it.
    let n = prefix.len();
    let mut c: usize = 0;
    while j + c < n && prefix[j + c] == ' '
        invariant
            n == prefix@.len(),
            j + c <= prefix@.len(),
            forall|y: int| j <= y < j + c ==> prefix@[y] == ' ',
            leading_spaces(prefix@.subrange(j as int, prefix@.len() as int)) == c + leading_spaces(
                prefix@.subrange(j + c, prefix@.len() as int),
            ),
        decreases prefix@.len() - (j + c),
    {
        let ghost rest = prefix@.subrange(j + c, prefix@.len() as int);
        assert(rest.drop_first() =~= prefix@.subrange(j + c + 1, prefix@.len() as int));
        c = c + 1;
    }
    proof {
        let rest = prefix@.subrange(j + c, prefix@.len() as int);
        assert(rest.len() == 0 || rest[0] != ' ');
    }
    Some(c)
}

/// The marker token of a level.
fn marker(level: usize) -> (r: Tok)
    ensures
        r@ == TokV::Ident(marker_name(level as nat)),
{
    let mut name: Vec<char> = Vec::new();
    push_str(&mut name, "__indent_");
    push_decimal(&mut name, level);
    Tok::Ident(string_of(name.as_slice()))
}

/// The marker of a token, from the text before it: `__indent_<n / 2>` when that text ends
/// in a line indented by `n` spaces, none when it holds no line break.  An odd `n` is
/// not admitted.
fn parse_indent(prefix: &[char]) -> (r: Option<Tok>)
    requires
        indent_of(prefix@) matches Some(n) ==> n % 2 == 0,
    ensures
        match indent_of(prefix@) {
            Some(n) => r matches Some(t) && t@ == TokV::Ident(marker_name(n / 2)),
            None => r is None,
        },
{
    match indent_count(prefix) {
        Some(n) => Some(marker(n / 2)),
        None => None,
    }
}

pub open spec fn marked_result(r: Result<Vec<Tok>, DslError>) -> Result<Seq<TokV>, DslErrorV> {
    match r {
        Ok(v) => Ok(toks_view(v@)),
        Err(e) => Err(e@),
    }
}

pub open spec fn prepend_toks(out: Seq<TokV>, r: Result<Seq<TokV>, DslErrorV>) -> Result<Seq<TokV>, DslErrorV> {
    match r {
        Ok(rest) => Ok(out + rest),
        Err(e) => Err(e),
    }
}

/// The text before the first token that starts a line indented by an odd number of
/// spaces, if there is one: the tokens can be marked exactly when there is none (see
/// `spec_marked`).
pub fn odd_indent(source: &str, trees: &Vec<SourceTree>) -> (r: Option<String>)
    ensures
        match r {
            Some(p) => spec_marked(source@, trees@) == Err::<Seq<TokV>, DslErrorV>(DslErrorV::OddIndent(p@)),
            None => spec_marked(source@, trees@) is Ok,
        },
{
    let src = chars_of(source);
    let ghost texts = tree_texts(trees@);
    let ghost toks = tree_toks(trees@);
    let ghost mut pre: Seq<TokV> = seq![];
    let slen = src.len();
    let mut pos: usize = 0;
    let mut i: usize = 0;
    assert(pre + seq![] =~= pre);
    while i < trees.len()
        invariant
            slen == src@.len(),
            i <= trees@.len(),
            pos <= src@.len(),
            src@ == source@,
            texts == tree_texts(trees@),
            toks == tree_toks(trees@),
            spec_marked(source@, trees@) == prepend_toks(pre, marked_from(src@, texts, toks, i as int, pos as int)),
        decreases trees@.len() - i,
    {
        let tree = &trees[i];
        assert(texts[i as int] == match tree.text {
            Some(s) => Some(s@),
            None => None::<Seq<char>>,
        });
        match &tree.text {
            None => {},
            Some(text) => {
                let pat = chars_of(text.as_str());
                match find_in(&src, pos, &pat) {
                    None => {},
                    Some(p) => {
                        let prefix = vstd::slice::slice_subrange(src.as_slice(), pos, p);
                        let ghost old_pre = pre;
                        match indent_count(prefix) {
                            Some(n) => {
                                if n % 2 == 1 {
                                    return Some(string_of(prefix));
                                }
                                proof {
                                    pre = pre + (seq![TokV::Ident(marker_name((n / 2) as nat))] + toks[i as int]);
                                }
                            },
                            None => {
                                proof {
                                    pre = pre + toks[i as int];
                                }
                            },
                        }
                        proof {
                            match marked_from(src@, texts, toks, i + 1, p + pat@.len()) {
                                Ok(rest) => {
                                    assert(prepend_toks(old_pre, marked_from(src@, texts, toks, i as int, pos as int))
                                        == prepend_toks(pre, Ok::<Seq<TokV>, DslErrorV>(rest))) by {
                                        match indent_of(src@.subrange(pos as int, p as int)) {
                                            Some(n) => {
                                                assert(old_pre + (seq![TokV::Ident(marker_name(n / 2))] + toks[i as int]
                                                    + rest) =~= pre + rest);
                                            },
                                            None => {
                                                assert(old_pre + (toks[i as int] + rest) =~= pre + rest);
                                            },
                                        }
                                    }
                                },
                                Err(e) => {},
                            }
                        }
                        pos = p + pat.len();
                    },
                }
            },
        }
        i = i + 1;
    }
    None
}

/// The tokens of a macro input with their line markers (see `spec_marked`).  `source` is
/// the source text of the input's group, braces included.  Every line must be indented by
/// an even number of spaces (see `odd_indent`).
pub fn create_indented_tokenstream(source: &str, trees: &Vec<SourceTree>) -> (r: Vec<Tok>)
    requires
        spec_marked(source@, trees@) is Ok,
    ensures
        spec_marked(source@, trees@) == Ok::<Seq<TokV>, DslErrorV>(toks_view(r@)),
{
    let src = chars_of(source);
    let ghost texts = tree_texts(trees@);
    let ghost toks = tree_toks(trees@);
    let slen = src.len();
    let mut out: Vec<Tok> = Vec::new();
    let mut pos: usize = 0;
    let mut i: usize = 0;
    assert(toks_view(out@) =~= seq![]);
    while i < trees.len()
        invariant
            slen == src@.len(),
            i <= trees@.len(),
            pos <= src@.len(),
            src@ == source@,
            texts == tree_texts(trees@),
            toks == tree_toks(trees@),
            spec_marked(source@, trees@) is Ok,
            spec_marked(source@, trees@) == prepend_toks(toks_view(out@), marked_from(src@, texts, toks, i as int, pos as int)),
        decreases trees@.len() - i,
    {
        let ghost pre = toks_view(out@);
        let tree = &trees[i];
        assert(texts[i as int] == match tree.text {
            Some(s) => Some(s@),
            None => None::<Seq<char>>,
        });
        assert(toks[i as int] == toks_view(tree.toks@));
        match &tree.text {
            None => {},
            Some(text) => {
                let pat = chars_of(text.as_str());
                match find_in(&src, pos, &pat) {
                    None => {},
                    Some(p) => {
                        let prefix = vstd::slice::slice_subrange(src.as_slice(), pos, p);
                        assert(marked_from(src@, texts, toks, i as int, pos as int) is Ok);
                        match parse_indent(prefix) {
                            Some(id) => {
                                out.push(id);
                            },
                            None => {},
                        }
                        let ghost mid = toks_view(out@);
                        let copy = dup_toks(tree.toks.as_slice());
                        let mut copy = copy;
                        let ghost cv = toks_view(copy@);
                        out.append(&mut copy);
                        assert(toks_view(out@) =~= mid + cv);
                        proof {
                            match marked_from(src@, texts, toks, i + 1, p + pat@.len()) {
                                Ok(rest) => {
                                    assert(prepend_toks(pre, marked_from(src@, texts, toks, i as int, pos as int))
                                        == prepend_toks(toks_view(out@), Ok::<Seq<TokV>, DslErrorV>(rest))) by {
                                        match indent_of(src@.subrange(pos as int, p as int)) {
                                            Some(n) => {
                                                assert(pre + (seq![TokV::Ident(marker_name(n / 2))] + toks[i as int]
                                                    + rest) =~= toks_view(out@) + rest);
                                            },
                                            None => {
                                                assert(pre + (toks[i as int] + rest) =~= toks_view(out@) + rest);
                                            },
                                        }
                                    }
                                },
                                Err(e) => {},
                            }
                        }
                        pos = p + pat.len();
                    },
                }
            },
        }
        i = i + 1;
    }
    assert(toks_view(out@) + seq![] =~= toks_view(out@));
    out
}

} // verus!
