//! Reading a document from its tokens (see `grammar` for what is read).

use crate::builder::{ParseView, empty_slots};
use crate::grammar::{DocView, ValueKind, accepted, bad_marker, doc_halts, close_from, colon, conditional, ctx_item, ctx_list_from, dash, dash_exprs, dash_words, decimal_value, def_list, parse_item, def_list_from, doc_from, expr_array, group_at, group_end, ident_at, indent_check, indent_peek, is_marker_word, item_end_from, kind_error, line_end_from, line_value, marker_prefix, next_depth, path_end, plain_item, plain_value, prop_label, sans_list, sans_list_from, spec_doc, value_list, word_array, word_list, yaml_exprs, yaml_words, digit_value};
use crate::syntax::{accepts_expr, accepts_fn_arg, accepts_ident, holds_c_literal, lit_str_value, path_debug};
use crate::text::{chars_of, str_eq, string_of};
use crate::token::{Delim, Tok, TokV, dup_toks, toks_text, toks_view, tok_lists_view, tokens_text};
use crate::propsets::{DynStruct, find_kind, find_kind_from};
use crate::propsets::{KIND_CONDITIONAL, KIND_DEPENDS, KIND_INIT, KIND_NO_INIT, PropItem};
use crate::token::strings_view;
use crate::types::{AccountArg, AccountConditionalProps, ContextProp, ContextPropV, DslError, DslErrorV, LabelledProp, LabelledPropV, ParseAccountProps, ParseProp, ParsePropV, PropLabel, PropLabelV, PropValue, PropValueV, RealAccountPropsSansInit, SansView, args_view, ctx_props_view, parse_props, sans_init_props, defs_wf, keys_of, KeyedVec, YamlAccounts, YamlContexts, YamlDoc};
use vstd::prelude::*;

verus! {

/// The text of the tokens `a..b`.
fn slice_text(t: &Vec<Tok>, a: usize, b: usize) -> (r: String)
    requires
        a <= b <= t@.len(),
    ensures
        r@ == toks_text(toks_view(t@).subrange(a as int, b as int)),
{
    let s = vstd::slice::slice_subrange(t.as_slice(), a, b);
    assert(toks_view(s@) =~= toks_view(t@).subrange(a as int, b as int));
    let text = tokens_text(s);
    string_of(text.as_slice())
}

/// A copy of the tokens `a..b`.
fn slice_toks(t: &Vec<Tok>, a: usize, b: usize) -> (r: Vec<Tok>)
    requires
        a <= b <= t@.len(),
    ensures
        toks_view(r@) == toks_view(t@).subrange(a as int, b as int),
{
    let s = vstd::slice::slice_subrange(t.as_slice(), a, b);
    assert(toks_view(s@) =~= toks_view(t@).subrange(a as int, b as int));
    dup_toks(s)
}

/// Whether `syn` takes the text as a value of the kind.
fn accepts_kind(kind: ValueKind, text: &str) -> (r: bool)
    ensures
        r == accepted(kind, text@),
{
    if holds_c_literal(text) {
        return false;
    }
    match kind {
        ValueKind::Expr => accepts_expr(text),
        ValueKind::Path => path_debug(text).is_some(),
        ValueKind::FnArg => accepts_fn_arg(text),
        _ => false,
    }
}

fn kind_err(kind: ValueKind) -> (r: DslError)
    ensures
        r@ == kind_error(kind),
{
    match kind {
        ValueKind::Expr => DslError::ExpectedExpr,
        ValueKind::Path => DslError::ExpectedType,
        ValueKind::FnArg => DslError::ExpectedFnArg,
        ValueKind::Bool => DslError::ExpectedBool,
        ValueKind::Str => DslError::ExpectedString,
    }
}

proof fn lemma_decimal_none_extends(d: Seq<char>, i: int, j: int)
    requires
        1 <= i <= j <= d.len(),
        decimal_value(d.take(i)) is None,
    ensures
        decimal_value(d.take(j)) is None,
    decreases j - i,
{
    if j > i {
        lemma_decimal_none_extends(d, i, j - 1);
        assert(d.take(j).drop_last() =~= d.take(j - 1));
    }
}

/// The number written by the digits (see `decimal_value`).
fn decimal_of(s: &[char]) -> (r: Option<usize>)
    ensures
        match r {
            Some(n) => decimal_value(s@) == Some(n as nat),
            None => decimal_value(s@) is None,
        },
{
    if s.len() == 0 {
        return None;
    }
    let mut v: usize = 0;
    let mut i: usize = 0;
    while i < s.len()
        invariant
            i <= s@.len(),
            s@.len() > 0,
            i == 0 ==> v == 0,
            i > 0 ==> decimal_value(s@.take(i as int)) == Some(v as nat),
        decreases s@.len() - i,
    {
        let c = s[i];
        assert(s@.take(i + 1).last() == c);
        assert(i > 0 ==> s@.take(i + 1).drop_last() =~= s@.take(i as int));
        if !('0' <= c && c <= '9') {
            proof {
                lemma_decimal_none_extends(s@, i + 1, s@.len() as int);
                assert(s@.take(s@.len() as int) =~= s@);
            }
            return None;
        }
        let d = (c as u32 - '0' as u32) as u128;
        assert(d == digit_value(c));
        let w: u128 = (v as u128) * 10 + d;
        if w > usize::MAX as u128 {
            proof {
                lemma_decimal_none_extends(s@, i + 1, s@.len() as int);
                assert(s@.take(s@.len() as int) =~= s@);
            }
            return None;
        }
        v = w as usize;
        i = i + 1;
    }
    assert(s@.take(s@.len() as int) =~= s@);
    Some(v)
}

/// Whether the word starts like a line marker.
fn is_marker(s: &str) -> (r: bool)
    ensures
        r == is_marker_word(s@),
{
    let cs = chars_of(s);
    let p = chars_of("__indent_");
    proof {
        reveal_strlit("__indent_");
    }
    assert(p@ == marker_prefix());
    if cs.len() < 9 {
        return false;
    }
    let mut i: usize = 0;
    while i < 9
        invariant
            i <= 9,
            cs@.len() >= 9,
            p@.len() == 9,
            p@ == marker_prefix(),
            cs@ == s@,
            forall|q: int| 0 <= q < i ==> cs@[q] == p@[q],
        decreases 9 - i,
    {
        if cs[i] != p[i] {
            assert(cs@.take(9)[i as int] != p@[i as int]);
            assert(cs@.take(9) != marker_prefix());
            return false;
        }
        i = i + 1;
    }
    assert(cs@.take(9) =~= p@);
    true
}

/// A line marker of the given level at `i`; a marker whose level is not a number is
/// admitted (see `check_indent`).
fn indent_at(t: &Vec<Tok>, i: usize, level: usize) -> (r: Result<usize, DslError>)
    ensures
        match r {
            Ok(j) => indent_check(toks_view(t@), i as int, level as nat) == Ok::<int, DslErrorV>(j as int),
            Err(e) => indent_check(toks_view(t@), i as int, level as nat) == Err::<int, DslErrorV>(e@),
        },
{
    if level > 16 {
        return Err(DslError::IndentTooDeep);
    }
    if i >= t.len() {
        return Err(DslError::ExpectedIdent);
    }
    assert(toks_view(t@)[i as int] == t@[i as int]@);
    match &t[i] {
        Tok::Ident(s) => {
            if !accepts_ident(s.as_str()) {
                return Err(DslError::ExpectedIdent);
            }
            if !is_marker(s.as_str()) {
                return Err(DslError::ExpectedIndent);
            }
            let cs = chars_of(s.as_str());
            let digits = vstd::slice::slice_subrange(cs.as_slice(), 9, cs.len());
            assert(digits@ =~= s@.skip(9));
            match decimal_of(digits) {
                None => Err(DslError::BadIndentNumber),
                Some(n) => if n != level {
                    Err(DslError::WrongIndent(level, n))
                } else {
                    Ok(i + 1)
                },
            }
        },
        _ => Err(DslError::ExpectedIdent),
    }
}

/// Whether a line of the given level starts at `i`; a marker whose level is not a number
/// is admitted (see `peek_indent`).
fn peek_at(t: &Vec<Tok>, i: usize, level: usize) -> (r: Result<bool, DslError>)
    ensures
        match r {
            Ok(b) => indent_peek(toks_view(t@), i as int, level as nat) == Ok::<bool, DslErrorV>(b),
            Err(e) => indent_peek(toks_view(t@), i as int, level as nat) == Err::<bool, DslErrorV>(e@),
        },
        r matches Ok(true) ==> i < t@.len(),
{
    match indent_at(t, i, level) {
        Ok(_) => Ok(true),
        Err(DslError::BadIndentNumber) => Err(DslError::BadIndentNumber),
        Err(_) => Ok(false),
    }
}

/// A line marker of the given level at `i` (see `indent_check`); gives the position after
/// it.  A marker whose level is not a number is not admitted.
pub fn check_indent(t: &Vec<Tok>, i: usize, level: usize) -> (r: Result<usize, DslError>)
    requires
        !bad_marker(toks_view(t@), i as int, level as nat),
    ensures
        match r {
            Ok(j) => indent_check(toks_view(t@), i as int, level as nat) == Ok::<int, DslErrorV>(j as int),
            Err(e) => indent_check(toks_view(t@), i as int, level as nat) == Err::<int, DslErrorV>(e@),
        },
        !(r matches Err(DslError::BadIndentNumber)),
{
    indent_at(t, i, level)
}

/// Whether a line of the given level starts at `i` (see `indent_peek`).  A marker whose
/// level is not a number is not admitted.
pub fn peek_indent(t: &Vec<Tok>, i: usize, level: usize) -> (r: Result<bool, DslError>)
    requires
        !bad_marker(toks_view(t@), i as int, level as nat),
    ensures
        match r {
            Ok(b) => indent_peek(toks_view(t@), i as int, level as nat) == Ok::<bool, DslErrorV>(b),
            Err(e) => indent_peek(toks_view(t@), i as int, level as nat) == Err::<bool, DslErrorV>(e@),
        },
        r is Ok,
        r matches Ok(true) ==> i < t@.len(),
{
    peek_at(t, i, level)
}

proof fn lemma_line_end_bounds(t: Seq<TokV>, j: int, d: nat)
    requires
        0 <= j <= t.len(),
    ensures
        j <= line_end_from(t, j, d) <= t.len(),
    decreases t.len() - j,
{
    if j < t.len() {
        lemma_line_end_bounds(t, j + 1, next_depth(t[j], d));
    }
}

fn depth_after(tok: &Tok, d: usize) -> (r: usize)
    requires
        d < usize::MAX,
    ensures
        r as nat == next_depth(tok@, d as nat),
{
    match tok {
        Tok::Open(_) => d + 1,
        Tok::Close(_) => if d > 0 {
            d - 1
        } else {
            0
        },
        _ => d,
    }
}

/// The end of the line that starts at `i` (see `line_end_from`).
fn line_end(t: &Vec<Tok>, i: usize) -> (r: usize)
    requires
        i <= t@.len(),
    ensures
        r as int == line_end_from(toks_view(t@), i as int, 0),
        i <= r <= t@.len(),
{
    let ghost tv = toks_view(t@);
    proof {
        lemma_line_end_bounds(tv, i as int, 0);
    }
    let mut j = i;
    let mut d: usize = 0;
    while j < t.len()
        invariant
            i <= j <= t@.len(),
            tv == toks_view(t@),
            d <= j - i,
            line_end_from(tv, i as int, 0) == line_end_from(tv, j as int, d as nat),
        decreases t@.len() - j,
    {
        assert(tv[j as int] == t@[j as int]@);
        let marker = d == 0 && match &t[j] {
            Tok::Ident(s) => is_marker(s.as_str()),
            _ => false,
        };
        if marker {
            return j;
        }
        d = depth_after(&t[j], d);
        j = j + 1;
    }
    j
}

proof fn lemma_close_bounds(t: Seq<TokV>, j: int, d: nat)
    requires
        0 <= j,
    ensures
        close_from(t, j, d) matches Some(c) ==> j <= c < t.len(),
    decreases t.len() - j,
{
    if j < t.len() && !(t[j] is Close && d <= 1) {
        lemma_close_bounds(t, j + 1, next_depth(t[j], d));
    }
}

/// The group opened at `i` with the delimiter: the position of its closing token (see
/// `group_at`).
fn find_group(t: &Vec<Tok>, i: usize, delim: Delim) -> (r: Option<usize>)
    ensures
        match r {
            Some(c) => group_at(toks_view(t@), i as int, delim) == Some(c as int) && i < c < t@.len(),
            None => group_at(toks_view(t@), i as int, delim) is None,
        },
{
    let ghost tv = toks_view(t@);
    if i >= t.len() {
        return None;
    }
    assert(tv[i as int] == t@[i as int]@);
    let opens = match &t[i] {
        Tok::Open(d) => *d == delim,
        _ => false,
    };
    if !opens {
        return None;
    }
    proof {
        lemma_close_bounds(tv, i + 1, 1);
    }
    let mut j = i + 1;
    let mut d: usize = 1;
    while j < t.len()
        invariant
            i < j <= t@.len(),
            tv == toks_view(t@),
            tv[i as int] == TokV::Open(delim),
            d <= j - i,
            group_end(tv, i as int) == close_from(tv, j as int, d as nat),
        decreases t@.len() - j,
    {
        assert(tv[j as int] == t@[j as int]@);
        let closes = match &t[j] {
            Tok::Close(_) => true,
            _ => false,
        };
        if closes && d <= 1 {
            return Some(j);
        }
        d = depth_after(&t[j], d);
        j = j + 1;
    }
    None
}

/// The end of the list item that starts at `a`, within `a..b` (see `item_end_from`).
fn item_end(t: &Vec<Tok>, a: usize, b: usize, kind: ValueKind) -> (r: Option<usize>)
    requires
        a <= b <= t@.len(),
    ensures
        match r {
            Some(k) => item_end_from(toks_view(t@), a as int, a as int, b as int, 0, kind) == Some(k as int) && a <= k
                <= b,
            None => item_end_from(toks_view(t@), a as int, a as int, b as int, 0, kind) is None,
        },
{
    let ghost tv = toks_view(t@);
    let mut k = a;
    let mut d: usize = 0;
    while k < b
        invariant
            a <= k <= b <= t@.len(),
            tv == toks_view(t@),
            d <= k - a,
            item_end_from(tv, a as int, a as int, b as int, 0, kind) == item_end_from(
                tv,
                a as int,
                k as int,
                b as int,
                d as nat,
                kind,
            ),
        decreases b - k,
    {
        assert(tv[k as int] == t@[k as int]@);
        let comma = d == 0 && match &t[k] {
            Tok::Punct(c, _) => *c == ',',
            _ => false,
        };
        if comma {
            let text = slice_text(t, a, k);
            if accepts_kind(kind, text.as_str()) {
                return Some(k);
            }
        }
        d = depth_after(&t[k], d);
        k = k + 1;
    }
    let text = slice_text(t, a, b);
    if accepts_kind(kind, text.as_str()) {
        Some(b)
    } else {
        None
    }
}

/// The items of the kind in `a..b` (see `value_list`).
fn values_in(t: &Vec<Tok>, a: usize, b: usize, kind: ValueKind) -> (r: Result<Vec<Vec<Tok>>, DslError>)
    requires
        a <= b <= t@.len(),
    ensures
        match r {
            Ok(v) => value_list(toks_view(t@), a as int, b as int, kind) == Ok::<Seq<Seq<TokV>>, DslErrorV>(
                tok_lists_view(v@),
            ),
            Err(e) => value_list(toks_view(t@), a as int, b as int, kind) == Err::<Seq<Seq<TokV>>, DslErrorV>(e@),
        },
{
    let ghost tv = toks_view(t@);
    let mut out: Vec<Vec<Tok>> = Vec::new();
    let mut p = a;
    while p < b
        invariant
            a <= p <= b <= t@.len(),
            tv == toks_view(t@),
            value_list(tv, a as int, b as int, kind) == match value_list(tv, p as int, b as int, kind) {
                Ok(rest) => Ok(tok_lists_view(out@) + rest),
                Err(e) => Err::<Seq<Seq<TokV>>, DslErrorV>(e),
            },
        decreases b - p,
    {
        let ghost pre = tok_lists_view(out@);
        match item_end(t, p, b, kind) {
            None => {
                return Err(kind_err(kind));
            },
            Some(k) => {
                let item = slice_toks(t, p, k);
                out.push(item);
                assert(tok_lists_view(out@) =~= pre.push(tv.subrange(p as int, k as int)));
                if k >= b {
                    assert(value_list(tv, b as int, b as int, kind) == Ok::<Seq<Seq<TokV>>, DslErrorV>(seq![]));
                    assert(tok_lists_view(out@) =~= pre + seq![tv.subrange(p as int, b as int)]);
                    p = b;
                } else {
                    proof {
                        match value_list(tv, k + 1, b as int, kind) {
                            Ok(rest) => {
                                assert(pre + (seq![tv.subrange(p as int, k as int)] + rest) =~= tok_lists_view(out@)
                                    + rest);
                            },
                            Err(e) => {},
                        }
                    }
                    p = k + 1;
                }
            },
        }
    }
    assert(tok_lists_view(out@) + seq![] =~= tok_lists_view(out@));
    Ok(out)
}


/// The words in `a..b` (see `word_list`).
fn words_in(t: &Vec<Tok>, a: usize, b: usize, strict: bool) -> (r: Result<Vec<String>, DslError>)
    requires
        a <= b <= t@.len(),
    ensures
        match r {
            Ok(v) => word_list(toks_view(t@), a as int, b as int, strict) == Ok::<Seq<Seq<char>>, DslErrorV>(
                strings_view(v@),
            ),
            Err(e) => word_list(toks_view(t@), a as int, b as int, strict) == Err::<Seq<Seq<char>>, DslErrorV>(e@),
        },
{
    let ghost tv = toks_view(t@);
    let mut out: Vec<String> = Vec::new();
    let mut p = a;
    while p < b
        invariant
            a <= p <= b <= t@.len(),
            tv == toks_view(t@),
            word_list(tv, a as int, b as int, strict) == match word_list(tv, p as int, b as int, strict) {
                Ok(rest) => Ok(strings_view(out@) + rest),
                Err(e) => Err::<Seq<Seq<char>>, DslErrorV>(e),
            },
        decreases b - p,
    {
        let ghost pre = strings_view(out@);
        assert(tv[p as int] == t@[p as int]@);
        match &t[p] {
            Tok::Ident(s) => {
                if strict && !accepts_ident(s.as_str()) {
                    return Err(DslError::ExpectedIdent);
                }
                out.push(s.clone());
                assert(strings_view(out@) =~= pre.push(s@));
                if p + 1 >= b {
                    assert(word_list(tv, b as int, b as int, strict) == Ok::<Seq<Seq<char>>, DslErrorV>(seq![]));
                    assert(strings_view(out@) =~= pre + seq![s@]);
                    p = b;
                } else {
                    assert(tv[p + 1] == t@[p + 1]@);
                    let comma = match &t[p + 1] {
                        Tok::Punct(c, _) => *c == ',',
                        _ => false,
                    };
                    if !comma {
                        return Err(DslError::ExpectedComma);
                    }
                    proof {
                        match word_list(tv, p + 2, b as int, strict) {
                            Ok(rest) => {
                                assert(pre + (seq![s@] + rest) =~= strings_view(out@) + rest);
                            },
                            Err(e) => {},
                        }
                    }
                    p = p + 2;
                }
            },
            _ => {
                return Err(DslError::ExpectedIdent);
            },
        }
    }
    assert(strings_view(out@) + seq![] =~= strings_view(out@));
    Ok(out)
}

/// The value of a result with a position, for contracts.
pub open spec fn value_result(r: Result<(PropValue, usize), DslError>) -> Result<(PropValueV, int), DslErrorV> {
    match r {
        Ok((v, j)) => Ok((v@, j as int)),
        Err(e) => Err(e@),
    }
}

/// A value alone on its line, from `i` (see `line_value`).
fn read_line_value(t: &Vec<Tok>, i: usize, kind: ValueKind) -> (r: Result<(PropValue, usize), DslError>)
    requires
        i <= t@.len(),
    ensures
        value_result(r) == line_value(toks_view(t@), i as int, kind),
        r matches Ok((_, j)) ==> i <= j <= t@.len(),
{
    let ghost tv = toks_view(t@);
    let j = line_end(t, i);
    let ghost v = tv.subrange(i as int, j as int);
    match kind {
        ValueKind::Bool => {
            if j > i && j - i == 1 {
                assert(v[0] == t@[i as int]@);
                if t[i].is_ident("true") {
                    return Ok((PropValue::Flag(true), j));
                }
                if t[i].is_ident("false") {
                    return Ok((PropValue::Flag(false), j));
                }
            }
            Err(DslError::ExpectedBool)
        },
        ValueKind::Str => {
            if j > i && j - i == 1 {
                assert(v[0] == t@[i as int]@);
                match &t[i] {
                    Tok::Literal(s) => {
                        if !holds_c_literal(s.as_str()) && lit_str_value(s.as_str()).is_some() {
                            let toks = slice_toks(t, i, j);
                            return Ok((PropValue::Expr(toks), j));
                        }
                    },
                    _ => {},
                }
            }
            Err(DslError::ExpectedString)
        },
        _ => {
            let text = slice_text(t, i, j);
            if accepts_kind(kind, text.as_str()) {
                let toks = slice_toks(t, i, j);
                Ok((PropValue::Expr(toks), j))
            } else {
                Err(kind_err(kind))
            }
        },
    }
}

/// The value of a list result with a position, for contracts.
pub open spec fn list_result(r: Result<(Vec<Vec<Tok>>, usize), DslError>) -> Result<(Seq<Seq<TokV>>, int), DslErrorV> {
    match r {
        Ok((v, j)) => Ok((tok_lists_view(v@), j as int)),
        Err(e) => Err(e@),
    }
}

pub open spec fn words_result(r: Result<(Vec<String>, usize), DslError>) -> Result<(Seq<Seq<char>>, int), DslErrorV> {
    match r {
        Ok((v, j)) => Ok((strings_view(v@), j as int)),
        Err(e) => Err(e@),
    }
}

/// `[a, b, ..]` at `i` (see `expr_array`).
fn read_expr_array(t: &Vec<Tok>, i: usize) -> (r: Result<(Vec<Vec<Tok>>, usize), DslError>)
    ensures
        list_result(r) == expr_array(toks_view(t@), i as int),
        r matches Ok((_, j)) ==> i < j <= t@.len(),
{
    let _n = t.len();
    match find_group(t, i, Delim::Bracket) {
        None => Err(DslError::ExpectedBracket),
        Some(c) => match values_in(t, i + 1, c, ValueKind::Expr) {
            Ok(es) => Ok((es, c + 1)),
            Err(e) => Err(e),
        },
    }
}

/// `[w, ..]` at `i` (see `word_array`).
fn read_word_array(t: &Vec<Tok>, i: usize, strict: bool) -> (r: Result<(Vec<String>, usize), DslError>)
    ensures
        words_result(r) == word_array(toks_view(t@), i as int, strict),
        r matches Ok((_, j)) ==> i < j <= t@.len(),
{
    let _n = t.len();
    match find_group(t, i, Delim::Bracket) {
        None => Err(DslError::ExpectedBracket),
        Some(c) => match words_in(t, i + 1, c, strict) {
            Ok(ws) => Ok((ws, c + 1)),
            Err(e) => Err(e),
        },
    }
}

pub open spec fn pos_result(r: Result<usize, DslError>) -> Result<int, DslErrorV> {
    match r {
        Ok(j) => Ok(j as int),
        Err(e) => Err(e@),
    }
}

/// A `:` at `i`.
fn read_colon(t: &Vec<Tok>, i: usize) -> (r: Result<usize, DslError>)
    ensures
        pos_result(r) == colon(toks_view(t@), i as int),
        r matches Ok(j) ==> j == i + 1 && j <= t@.len(),
{
    if i < t.len() {
        assert(toks_view(t@)[i as int] == t@[i as int]@);
        match &t[i] {
            Tok::Punct(c, _) => if *c == ':' {
                return Ok(i + 1);
            },
            _ => {},
        }
    }
    Err(DslError::ExpectedColon)
}

/// A `-` at `i`.
fn read_dash(t: &Vec<Tok>, i: usize) -> (r: Result<usize, DslError>)
    ensures
        pos_result(r) == dash(toks_view(t@), i as int),
        r matches Ok(j) ==> j == i + 1 && j <= t@.len(),
{
    if i < t.len() {
        assert(toks_view(t@)[i as int] == t@[i as int]@);
        match &t[i] {
            Tok::Punct(c, _) => if *c == '-' {
                return Ok(i + 1);
            },
            _ => {},
        }
    }
    Err(DslError::ExpectedDash)
}

pub open spec fn prepend_list(out: Seq<Seq<TokV>>, r: Result<(Seq<Seq<TokV>>, int), DslErrorV>) -> Result<
    (Seq<Seq<TokV>>, int),
    DslErrorV,
> {
    match r {
        Ok((rest, m)) => Ok((out + rest, m)),
        Err(e) => Err(e),
    }
}

pub open spec fn prepend_words(out: Seq<Seq<char>>, r: Result<(Seq<Seq<char>>, int), DslErrorV>) -> Result<
    (Seq<Seq<char>>, int),
    DslErrorV,
> {
    match r {
        Ok((rest, m)) => Ok((out + rest, m)),
        Err(e) => Err(e),
    }
}

/// Lines `- expr` of the given level from `i` (see `dash_exprs`).
fn read_dash_exprs(t: &Vec<Tok>, i: usize, level: usize) -> (r: Result<(Vec<Vec<Tok>>, usize), DslError>)
    ensures
        list_result(r) == dash_exprs(toks_view(t@), i as int, level as nat),
        r matches Ok((_, j)) ==> i < j <= t@.len(),
{
    let ghost tv = toks_view(t@);
    let mut out: Vec<Vec<Tok>> = Vec::new();
    let mut p = i;
    loop
        invariant
            i <= p < t@.len() || (p == i),
            tv == toks_view(t@),
            dash_exprs(tv, i as int, level as nat) == prepend_list(tok_lists_view(out@), dash_exprs(tv, p as int, level as nat)),
            out@.len() > 0 ==> i < p,
        decreases t@.len() - p,
    {
        let ghost pre = tok_lists_view(out@);
        let j = match indent_at(t, p, level) {
            Ok(j) => j,
            Err(e) => {
                return Err(e);
            },
        };
        let j2 = match read_dash(t, j) {
            Ok(j2) => j2,
            Err(e) => {
                return Err(e);
            },
        };
        let (v, k) = match read_line_value(t, j2, ValueKind::Expr) {
            Ok(x) => x,
            Err(e) => {
                return Err(e);
            },
        };
        let item = match v {
            PropValue::Expr(x) => x,
            _ => Vec::new(),
        };
        let ghost iv = toks_view(item@);
        out.push(item);
        assert(tok_lists_view(out@) =~= pre.push(iv));
        match peek_at(t, k, level) {
            Err(e) => {
                return Err(e);
            },
            Ok(false) => {
                assert(tok_lists_view(out@) =~= pre + seq![iv]);
                return Ok((out, k));
            },
            Ok(true) => {
                proof {
                    match dash_exprs(tv, k as int, level as nat) {
                        Ok((rest, m)) => {
                            assert(pre + (seq![iv] + rest) =~= tok_lists_view(out@) + rest);
                        },
                        Err(e) => {},
                    }
                }
                p = k;
            },
        }
    }
}

/// Lines `- word` of the given level from `i` (see `dash_words`).
fn read_dash_words(t: &Vec<Tok>, i: usize, level: usize) -> (r: Result<(Vec<String>, usize), DslError>)
    ensures
        words_result(r) == dash_words(toks_view(t@), i as int, level as nat),
        r matches Ok((_, j)) ==> i < j <= t@.len(),
{
    let ghost tv = toks_view(t@);
    let mut out: Vec<String> = Vec::new();
    let mut p = i;
    loop
        invariant
            i <= p < t@.len() || (p == i),
            tv == toks_view(t@),
            dash_words(tv, i as int, level as nat) == prepend_words(strings_view(out@), dash_words(tv, p as int, level as nat)),
            out@.len() > 0 ==> i < p,
        decreases t@.len() - p,
    {
        let ghost pre = strings_view(out@);
        let j = match indent_at(t, p, level) {
            Ok(j) => j,
            Err(e) => {
                return Err(e);
            },
        };
        let j2 = match read_dash(t, j) {
            Ok(j2) => j2,
            Err(e) => {
                return Err(e);
            },
        };
        if j2 >= t.len() {
            return Err(DslError::ExpectedIdent);
        }
        assert(tv[j2 as int] == t@[j2 as int]@);
        let w = match &t[j2] {
            Tok::Ident(s) => {
                if !accepts_ident(s.as_str()) {
                    return Err(DslError::ExpectedIdent);
                }
                s.clone()
            },
            _ => {
                return Err(DslError::ExpectedIdent);
            },
        };
        let ghost wv = w@;
        let k = j2 + 1;
        out.push(w);
        assert(strings_view(out@) =~= pre.push(wv));
        match peek_at(t, k, level) {
            Err(e) => {
                return Err(e);
            },
            Ok(false) => {
                assert(strings_view(out@) =~= pre + seq![wv]);
                return Ok((out, k));
            },
            Ok(true) => {
                proof {
                    match dash_words(tv, k as int, level as nat) {
                        Ok((rest, m)) => {
                            assert(pre + (seq![wv] + rest) =~= strings_view(out@) + rest);
                        },
                        Err(e) => {},
                    }
                }
                p = k;
            },
        }
    }
}

/// A list of expressions for a property of the given level (see `yaml_exprs`).
fn read_yaml_exprs(t: &Vec<Tok>, i: usize, level: usize) -> (r: Result<(Vec<Vec<Tok>>, usize), DslError>)
    requires
        level <= 16,
    ensures
        list_result(r) == yaml_exprs(toks_view(t@), i as int, level as nat),
        r matches Ok((_, j)) ==> i < j <= t@.len(),
{
    let bracket = i < t.len() && match &t[i] {
        Tok::Open(Delim::Bracket) => true,
        _ => false,
    };
    if i < t.len() {
        assert(toks_view(t@)[i as int] == t@[i as int]@);
    }
    if bracket {
        read_expr_array(t, i)
    } else {
        read_dash_exprs(t, i, level + 1)
    }
}

/// A list of identifiers for a property of the given level (see `yaml_words`).
fn read_yaml_words(t: &Vec<Tok>, i: usize, level: usize) -> (r: Result<(Vec<String>, usize), DslError>)
    requires
        level <= 16,
    ensures
        words_result(r) == yaml_words(toks_view(t@), i as int, level as nat),
        r matches Ok((_, j)) ==> i < j <= t@.len(),
{
    let bracket = i < t.len() && match &t[i] {
        Tok::Open(Delim::Bracket) => true,
        _ => false,
    };
    if i < t.len() {
        assert(toks_view(t@)[i as int] == t@[i as int]@);
    }
    if bracket {
        read_word_array(t, i, true)
    } else {
        read_dash_words(t, i, level + 1)
    }
}

pub open spec fn label_result(r: Result<(PropLabel, usize), DslError>) -> Result<(PropLabelV, int), DslErrorV> {
    match r {
        Ok((l, j)) => Ok((l@, j as int)),
        Err(e) => Err(e@),
    }
}

impl PropLabel {
/// A property label at `i` (see `prop_label`).
pub fn parse(t: &Vec<Tok>, i: usize) -> (r: Result<(PropLabel, usize), DslError>)
    ensures
        label_result(r) == prop_label(toks_view(t@), i as int),
        r matches Ok((_, j)) ==> i < j <= t@.len(),
{
    let ghost tv = toks_view(t@);
    let n = t.len();
    if i >= n {
        return Err(DslError::ExpectedIdent);
    }
    assert(tv[i as int] == t@[i as int]@);
    let is_word = match &t[i] {
        Tok::Ident(_) => true,
        _ => false,
    };
    if !is_word {
        return Err(DslError::ExpectedIdent);
    }
    let mut p = i;
    loop
        invariant
            i <= p < n,
            n == t@.len(),
            tv == toks_view(t@),
            tv[p as int] is Ident,
            tv[i as int] is Ident,
            path_end(tv, i as int) == path_end(tv, p as int),
        decreases n - p,
    {
        let sep = n - p > 2 && match &t[p + 1] {
            Tok::Punct(c, j) => *c == ':' && *j,
            _ => false,
        } && match &t[p + 2] {
            Tok::Punct(c, _) => *c == ':',
            _ => false,
        };
        if n - p > 2 {
            assert(tv[p + 1] == t@[p + 1]@);
            assert(tv[p + 2] == t@[p + 2]@);
        }
        if !sep {
            let path = slice_toks(t, i, p + 1);
            return Ok((PropLabel::from_path(path), p + 1));
        }
        let next_word = n - p > 3 && match &t[p + 3] {
            Tok::Ident(_) => true,
            _ => false,
        };
        if n - p > 3 {
            assert(tv[p + 3] == t@[p + 3]@);
        }
        if !next_word {
            return Err(DslError::ExpectedIdent);
        }
        p = p + 3;
    }
}
}

/// The value of a property of the given kind (see `plain_value`).
fn read_plain_value(t: &Vec<Tok>, i: usize, level: usize, kind: usize) -> (r: Result<(PropValue, usize), DslError>)
    requires
        level <= 16,
        i <= t@.len(),
    ensures
        value_result(r) == plain_value(toks_view(t@), i as int, level as nat, kind as nat),
        r matches Ok((_, j)) ==> i <= j <= t@.len(),
{
    if kind == 0 || kind == 1 || kind == crate::propsets::KIND_INIT_IF_NEEDED {
        read_line_value(t, i, ValueKind::Bool)
    } else if kind == 3 {
        read_line_value(t, i, ValueKind::Str)
    } else if kind == 4 {
        match read_yaml_exprs(t, i, level) {
            Ok((es, j)) => Ok((PropValue::Exprs(es), j)),
            Err(e) => Err(e),
        }
    } else if kind == 5 {
        read_line_value(t, i, ValueKind::Path)
    } else if kind == 6 {
        match read_expr_array(t, i) {
            Ok((es, j)) => Ok((PropValue::Exprs(es), j)),
            Err(e) => Err(e),
        }
    } else {
        read_line_value(t, i, ValueKind::Expr)
    }
}

proof fn lemma_found_kind_in(props: Seq<nat>, label: Seq<char>, i: nat)
    ensures
        find_kind_from(props, label, i) matches Some(k) ==> props.contains(k),
    decreases props.len() - i,
{
    if i < props.len() {
        if crate::propsets::spec_kind_label(props[i as int]) != label {
            lemma_found_kind_in(props, label, i + 1);
        } else {
            assert(props[i as int] == props[i as int]);
        }
    }
}

pub open spec fn prop_result(r: Result<(LabelledProp, usize), DslError>) -> Result<(LabelledPropV, int), DslErrorV> {
    match r {
        Ok((p, j)) => Ok((p@, j as int)),
        Err(e) => Err(e@),
    }
}

/// `label: value` for a kind of the set without init markers (see `plain_item`).
fn read_sans_item(t: &Vec<Tok>, i: usize, level: usize) -> (r: Result<(LabelledProp, usize), DslError>)
    requires
        level <= 16,
    ensures
        prop_result(r) == plain_item(toks_view(t@), i as int, level as nat, sans_init_props()),
        r matches Ok((p, j)) ==> i < j <= t@.len() && sans_init_props().contains(p.kind as nat),
{
    let (label, j) = match PropLabel::parse(t, i) {
        Ok(x) => x,
        Err(e) => {
            return Err(e);
        },
    };
    let k = match find_kind::<RealAccountPropsSansInit>(label.label.as_str()) {
        Some(k) => k,
        None => {
            return Err(DslError::InvalidProperty(label.label));
        },
    };
    proof {
        lemma_found_kind_in(sans_init_props(), label@.text, 0);
    }
    let j2 = match read_colon(t, j) {
        Ok(j2) => j2,
        Err(e) => {
            return Err(e);
        },
    };
    match read_plain_value(t, j2, level, k) {
        Ok((v, e)) => Ok((LabelledProp { label, kind: k, value: v }, e)),
        Err(e) => Err(e),
    }
}

pub open spec fn sans_result(r: Result<(DynStruct<RealAccountPropsSansInit>, usize), DslError>) -> Result<
    (SansView, int),
    DslErrorV,
> {
    match r {
        Ok((d, j)) => Ok((d@, j as int)),
        Err(e) => Err(e@),
    }
}

/// Properties without init markers, one per line of the given level (see `sans_list`).
fn read_sans_list(t: &Vec<Tok>, i: usize, level: usize) -> (r: Result<(DynStruct<RealAccountPropsSansInit>, usize), DslError>)
    requires
        level <= 17,
    ensures
        sans_result(r) == sans_list(toks_view(t@), i as int, level as nat),
        r matches Ok((d, j)) ==> d.wf() && i < j <= t@.len(),
{
    let ghost tv = toks_view(t@);
    let mut acc = DynStruct::<RealAccountPropsSansInit>::new();
    proof {
        assert(acc@ == empty_slots::<LabelledPropV>()) by {
            assert(acc@ =~= empty_slots::<LabelledPropV>());
        }
    }
    let mut p = i;
    loop
        invariant
            i <= p,
            p == i || p < t@.len(),
            tv == toks_view(t@),
            acc.wf(),
            level <= 17,
            sans_list(tv, i as int, level as nat) == sans_list_from(tv, p as int, level as nat, acc@),
        decreases t@.len() - p,
    {
        let j = match indent_at(t, p, level) {
            Ok(j) => j,
            Err(e) => {
                return Err(e);
            },
        };
        let (prop, k) = match read_sans_item(t, j, level) {
            Ok(x) => x,
            Err(e) => {
                return Err(e);
            },
        };
        acc.insert_dyn(prop);
        match peek_at(t, k, level) {
            Err(e) => {
                return Err(e);
            },
            Ok(false) => {
                return Ok((acc, k));
            },
            Ok(true) => {
                p = k;
            },
        }
    }
}

pub open spec fn parse_result(r: Result<(ParseProp, usize), DslError>) -> Result<(ParsePropV, int), DslErrorV> {
    match r {
        Ok((p, j)) => Ok((p@, j as int)),
        Err(e) => Err(e@),
    }
}

/// `if <arg>:` with its properties, and an optional `else:` (see `conditional`).
fn read_conditional(t: &Vec<Tok>, label: PropLabel, j: usize, level: usize) -> (r: Result<(ParseProp, usize), DslError>)
    requires
        level <= 16,
    ensures
        parse_result(r) == conditional(toks_view(t@), label@, j as int, level as nat),
        r matches Ok((p, e)) ==> j < e <= t@.len() && p.wf() && p.spec_kind() == KIND_CONDITIONAL,
{
    let ghost tv = toks_view(t@);
    let ghost lab = label@;
    let n = t.len();
    if j >= n {
        return Err(DslError::ExpectedIdent);
    }
    assert(tv[j as int] == t@[j as int]@);
    let arg = match &t[j] {
        Tok::Ident(s) => AccountArg(s.clone()),
        _ => {
            return Err(DslError::ExpectedIdent);
        },
    };
    let j2 = match read_colon(t, j + 1) {
        Ok(x) => x,
        Err(e) => {
            return Err(e);
        },
    };
    let (ifv, m) = match read_sans_list(t, j2, level + 1) {
        Ok(x) => x,
        Err(e) => {
            return Err(e);
        },
    };
    let more = match peek_at(t, m, level) {
        Ok(b) => b,
        Err(e) => {
            return Err(e);
        },
    };
    let has_else = more && n - m > 1 && t[m + 1].is_ident("else");
    if more && n - m > 1 {
        assert(tv[m + 1] == t@[m + 1]@);
    }
    if has_else {
        let m2 = match read_colon(t, m + 2) {
            Ok(x) => x,
            Err(e) => {
                return Err(e);
            },
        };
        let (elsev, m3) = match read_sans_list(t, m2, level + 1) {
            Ok(x) => x,
            Err(e) => {
                return Err(e);
            },
        };
        Ok((ParseProp::Conditional(label, AccountConditionalProps { arg, _if: ifv, _else: elsev }), m3))
    } else {
        let elsev = DynStruct::<RealAccountPropsSansInit>::new();
        assert(elsev@ =~= empty_slots::<LabelledPropV>());
        Ok((ParseProp::Conditional(label, AccountConditionalProps { arg, _if: ifv, _else: elsev }), m))
    }
}

/// One property of an account definition (see `parse_item`).
fn read_parse_item(t: &Vec<Tok>, i: usize, level: usize) -> (r: Result<(ParseProp, usize), DslError>)
    requires
        level <= 16,
    ensures
        parse_result(r) == parse_item(toks_view(t@), i as int, level as nat),
        r matches Ok((p, j)) ==> i < j <= t@.len() && p.wf() && parse_props().contains(p.spec_kind()),
{
    let (label, j) = match PropLabel::parse(t, i) {
        Ok(x) => x,
        Err(e) => {
            return Err(e);
        },
    };
    let k = match find_kind::<ParseAccountProps>(label.label.as_str()) {
        Some(k) => k,
        None => {
            return Err(DslError::InvalidProperty(label.label));
        },
    };
    proof {
        lemma_found_kind_in(parse_props(), label@.text, 0);
    }
    if k == KIND_CONDITIONAL {
        return read_conditional(t, label, j, level);
    }
    let j2 = match read_colon(t, j) {
        Ok(x) => x,
        Err(e) => {
            return Err(e);
        },
    };
    if k == KIND_DEPENDS {
        match read_yaml_words(t, j2, level) {
            Ok((ws, e)) => Ok((ParseProp::Depends(label, ws), e)),
            Err(e) => Err(e),
        }
    } else if k == KIND_INIT || k == KIND_NO_INIT {
        match read_sans_list(t, j2, level + 1) {
            Ok((v, e)) => {
                if k == KIND_INIT {
                    Ok((ParseProp::Init(label, v), e))
                } else {
                    Ok((ParseProp::NoInit(label, v), e))
                }
            },
            Err(e) => Err(e),
        }
    } else {
        match read_plain_value(t, j2, level, k) {
            Ok((v, e)) => Ok((ParseProp::Plain(LabelledProp { label, kind: k, value: v }), e)),
            Err(e) => Err(e),
        }
    }
}

pub open spec fn def_result(r: Result<(DynStruct<ParseAccountProps>, usize), DslError>) -> Result<
    (ParseView, int),
    DslErrorV,
> {
    match r {
        Ok((d, j)) => Ok((d@, j as int)),
        Err(e) => Err(e@),
    }
}

/// The properties of an account definition, one per line of the given level (see
/// `def_list`).
fn read_def_list(t: &Vec<Tok>, i: usize, level: usize) -> (r: Result<(DynStruct<ParseAccountProps>, usize), DslError>)
    ensures
        def_result(r) == def_list(toks_view(t@), i as int, level as nat),
        r matches Ok((d, j)) ==> d.wf() && i < j <= t@.len(),
{
    let ghost tv = toks_view(t@);
    let mut acc = DynStruct::<ParseAccountProps>::new();
    proof {
        assert(acc@ =~= empty_slots::<ParsePropV>());
    }
    let mut p = i;
    loop
        invariant
            i <= p,
            p == i || p < t@.len(),
            tv == toks_view(t@),
            acc.wf(),
            def_list(tv, i as int, level as nat) == def_list_from(tv, p as int, level as nat, acc@),
        decreases t@.len() - p,
    {
        let j = match indent_at(t, p, level) {
            Ok(j) => j,
            Err(e) => {
                return Err(e);
            },
        };
        let (prop, k) = match read_parse_item(t, j, level) {
            Ok(x) => x,
            Err(e) => {
                return Err(e);
            },
        };
        proof {
            prop.lemma_kind();
        }
        acc.insert_dyn(prop);
        match peek_at(t, k, level) {
            Err(e) => {
                return Err(e);
            },
            Ok(false) => {
                return Ok((acc, k));
            },
            Ok(true) => {
                p = k;
            },
        }
    }
}

/// The arguments of an account line, from its words.
fn to_args(v: Vec<String>) -> (r: Vec<AccountArg>)
    ensures
        args_view(r@) == strings_view(v@),
{
    let mut out: Vec<AccountArg> = Vec::new();
    let mut i: usize = 0;
    while i < v.len()
        invariant
            i <= v@.len(),
            out@.len() == i,
            forall|q: int| 0 <= q < i ==> (#[trigger] out@[q])@ == v@[q]@,
        decreases v@.len() - i,
    {
        out.push(AccountArg(v[i].clone()));
        i = i + 1;
    }
    assert(args_view(out@) =~= strings_view(v@));
    out
}

pub open spec fn ctx_item_result(r: Result<(ContextProp, usize), DslError>) -> Result<(ContextPropV, int), DslErrorV> {
    match r {
        Ok((p, j)) => Ok((p@, j as int)),
        Err(e) => Err(e@),
    }
}

impl ContextProp {
/// One line of a context (see `ctx_item`).
pub fn parse_indented(t: &Vec<Tok>, i: usize) -> (r: Result<(ContextProp, usize), DslError>)
    ensures
        ctx_item_result(r) == ctx_item(toks_view(t@), i as int),
        r matches Ok((_, j)) ==> i < j <= t@.len(),
{
    let ghost tv = toks_view(t@);
    let n = t.len();
    if i >= n {
        return Err(DslError::ExpectedIdent);
    }
    assert(tv[i as int] == t@[i as int]@);
    let name = match &t[i] {
        Tok::Ident(s) => {
            if !accepts_ident(s.as_str()) {
                return Err(DslError::ExpectedIdent);
            }
            s.clone()
        },
        _ => {
            return Err(DslError::ExpectedIdent);
        },
    };
    assert(ident_at(tv, i as int) == Some(name@));
    if str_eq(name.as_str(), "instruction") {
        let j = match read_colon(t, i + 1) {
            Ok(x) => x,
            Err(e) => {
                return Err(e);
            },
        };
        match find_group(t, j, Delim::Paren) {
            None => Err(DslError::ExpectedParen),
            Some(c) => match values_in(t, j + 1, c, ValueKind::FnArg) {
                Ok(args) => Ok((ContextProp::Instruction { args }, c + 1)),
                Err(e) => Err(e),
            },
        }
    } else {
        let colon_next = n - i > 1 && match &t[i + 1] {
            Tok::Punct(c, _) => *c == ':',
            _ => false,
        };
        if n - i > 1 {
            assert(tv[i + 1] == t@[i + 1]@);
        }
        if colon_next {
            match read_word_array(t, i + 2, false) {
                Ok((ws, e)) => Ok((ContextProp::Account { name, args: to_args(ws) }, e)),
                Err(e) => Err(e),
            }
        } else {
            let args: Vec<AccountArg> = Vec::new();
            assert(args_view(args@) =~= seq![]);
            Ok((ContextProp::Account { name, args }, i + 1))
        }
    }
}
}

pub open spec fn ctx_list_result(r: Result<(Vec<ContextProp>, usize), DslError>) -> Result<
    (Seq<ContextPropV>, int),
    DslErrorV,
> {
    match r {
        Ok((v, j)) => Ok((ctx_props_view(v@), j as int)),
        Err(e) => Err(e@),
    }
}

/// The lines of a context, one per line of the given level (see `ctx_list_from`).
fn read_ctx_list(t: &Vec<Tok>, i: usize, level: usize) -> (r: Result<(Vec<ContextProp>, usize), DslError>)
    ensures
        ctx_list_result(r) == ctx_list_from(toks_view(t@), i as int, level as nat, seq![]),
        r matches Ok((_, j)) ==> i < j <= t@.len(),
{
    let ghost tv = toks_view(t@);
    let mut acc: Vec<ContextProp> = Vec::new();
    let mut p = i;
    assert(ctx_props_view(acc@) =~= seq![]);
    loop
        invariant
            i <= p,
            p == i || p < t@.len(),
            tv == toks_view(t@),
            ctx_list_from(tv, i as int, level as nat, seq![]) == ctx_list_from(
                tv,
                p as int,
                level as nat,
                ctx_props_view(acc@),
            ),
        decreases t@.len() - p,
    {
        let j = match indent_at(t, p, level) {
            Ok(j) => j,
            Err(e) => {
                return Err(e);
            },
        };
        let (prop, k) = match ContextProp::parse_indented(t, j) {
            Ok(x) => x,
            Err(e) => {
                return Err(e);
            },
        };
        let ghost pre = ctx_props_view(acc@);
        let ghost pv = prop@;
        acc.push(prop);
        assert(ctx_props_view(acc@) =~= pre.push(pv));
        match peek_at(t, k, level) {
            Err(e) => {
                return Err(e);
            },
            Ok(false) => {
                return Ok((acc, k));
            },
            Ok(true) => {
                p = k;
            },
        }
    }
}

/// The contexts of a document, by their views.
pub open spec fn ctxs_view(v: Seq<(String, Vec<ContextProp>)>) -> Seq<(Seq<char>, Seq<ContextPropV>)> {
    v.map_values(|e: (String, Vec<ContextProp>)| (e.0@, ctx_props_view(e.1@)))
}

/// A document by its view: its contexts and its account definitions.
pub open spec fn doc_view(d: YamlDoc) -> DocView {
    (ctxs_view(d.0.0.0@), d.1@)
}

/// Reads a document from its tokens, line markers included (see `spec_doc`), the errors
/// on which reading stops included.
fn parse_doc(t: &Vec<Tok>) -> (r: Result<YamlDoc, DslError>)
    ensures
        match r {
            Ok(d) => spec_doc(toks_view(t@)) == Ok::<DocView, DslErrorV>(doc_view(d)) && defs_wf(d.1.0@),
            Err(e) => spec_doc(toks_view(t@)) == Err::<DocView, DslErrorV>(e@),
        },
{
    let ghost tv = toks_view(t@);
    let mut contexts: Vec<(String, Vec<ContextProp>)> = Vec::new();
    let mut accounts: YamlAccounts = KeyedVec::new();
    let mut p: usize = 0;
    proof {
        let e0: Seq<(Seq<char>, Seq<ContextPropV>)> = seq![];
        let e1: Seq<(Seq<char>, ParseView)> = seq![];
        assert(ctxs_view(contexts@) =~= e0);
        assert(accounts@ =~= e1);
        assert((ctxs_view(contexts@), accounts@) == (e0, e1));
        assert(accounts@.len() == accounts.0@.len());
        assert(accounts.0@.len() == 0);
    }
    while p < t.len()
        invariant
            p <= t@.len(),
            tv == toks_view(t@),
            defs_wf(accounts.0@),
            spec_doc(tv) == doc_from(tv, p as int, (ctxs_view(contexts@), accounts@)),
        decreases t@.len() - p,
    {
        let j = match indent_at(t, p, 0) {
            Ok(j) => j,
            Err(e) => {
                return Err(e);
            },
        };
        if j >= t.len() {
            return Err(DslError::ExpectedIdent);
        }
        assert(tv[j as int] == t@[j as int]@);
        let name = match &t[j] {
            Tok::Ident(s) => {
                if !accepts_ident(s.as_str()) {
                    return Err(DslError::ExpectedIdent);
                }
                s.clone()
            },
            _ => {
                return Err(DslError::ExpectedIdent);
            },
        };
        assert(ident_at(tv, j as int) == Some(name@));
        if str_eq(name.as_str(), "context") {
            if j + 1 >= t.len() {
                return Err(DslError::ExpectedIdent);
            }
            assert(tv[j + 1] == t@[j + 1]@);
            let cname = match &t[j + 1] {
                Tok::Ident(s) => {
                    if !accepts_ident(s.as_str()) {
                        return Err(DslError::ExpectedIdent);
                    }
                    s.clone()
                },
                _ => {
                    return Err(DslError::ExpectedIdent);
                },
            };
            assert(ident_at(tv, j + 1) == Some(cname@));
            let k = match read_colon(t, j + 2) {
                Ok(x) => x,
                Err(e) => {
                    return Err(e);
                },
            };
            let (props, m) = match read_ctx_list(t, k, 1) {
                Ok(x) => x,
                Err(e) => {
                    return Err(e);
                },
            };
            let ghost cv = ctxs_view(contexts@);
            let kc = KeyedVec(contexts);
            let taken = kc.has(cname.as_str());
            contexts = kc.0;
            proof {
                assert(keys_of(cv) =~= keys_of(KeyedVec(contexts)@));
            }
            if taken {
                return Err(DslError::DuplicateKey(cname));
            }
            let ghost entry = (cname@, ctx_props_view(props@));
            contexts.push((cname, props));
            assert(ctxs_view(contexts@) =~= cv.push(entry));
            p = m;
        } else {
            if accounts.has(name.as_str()) {
                return Err(DslError::DuplicateAccount(name));
            }
            let k = match read_colon(t, j + 1) {
                Ok(x) => x,
                Err(e) => {
                    return Err(e);
                },
            };
            let (def, m) = match read_def_list(t, k, 1) {
                Ok(x) => x,
                Err(e) => {
                    return Err(e);
                },
            };
            let ghost pre = accounts@;
            let ghost entry = (name@, def@);
            let ghost pre_defs = accounts.0@;
            accounts.0.push((name, def));
            proof {
                assert(accounts@ =~= pre.push(entry));
                assert forall|q: int| 0 <= q < accounts.0@.len() implies (#[trigger] accounts.0@[q]).1.wf() by {
                    if q < pre_defs.len() {
                        assert(accounts.0@[q] == pre_defs[q]);
                    }
                }
            }
            p = m;
        }
    }
    Ok(YamlDoc(YamlContexts(KeyedVec(contexts)), accounts))
}

impl YamlDoc {
    /// Reads a document from its tokens, line markers included (see `spec_doc`).  An
    /// account defined twice, or a line marker whose level is not a number, is not admitted
    /// (see `read`).
    pub fn parse(t: &Vec<Tok>) -> (r: Result<YamlDoc, DslError>)
        requires
            !doc_halts(toks_view(t@)),
        ensures
            match r {
                Ok(d) => spec_doc(toks_view(t@)) == Ok::<DocView, DslErrorV>(doc_view(d)) && defs_wf(d.1.0@),
                Err(e) => spec_doc(toks_view(t@)) == Err::<DocView, DslErrorV>(e@),
            },
            !(r matches Err(DslError::DuplicateAccount(_))),
            !(r matches Err(DslError::BadIndentNumber)),
    {
        parse_doc(t)
    }

    /// Reads a document from its tokens as `parse` does, on any tokens: where `parse` does
    /// not admit them, the error says why (`DuplicateAccount` or `BadIndentNumber`).
    pub fn read(t: &Vec<Tok>) -> (r: Result<YamlDoc, DslError>)
        ensures
            match r {
                Ok(d) => spec_doc(toks_view(t@)) == Ok::<DocView, DslErrorV>(doc_view(d)) && defs_wf(d.1.0@),
                Err(e) => spec_doc(toks_view(t@)) == Err::<DocView, DslErrorV>(e@),
            },
            doc_halts(toks_view(t@)) <==> (r matches Err(e) && (e is DuplicateAccount || e is BadIndentNumber)),
    {
        parse_doc(t)
    }
}

} // verus!
