//! The grammar of a document, over its tokens once the line markers are in.
//!
//! A document is a list of entries at the left margin: account definitions
//! (`name:` and their properties one level in) and contexts (`context Name:` and their
//! lines one level in).  A line starts with a marker token `__indent_<level>`.  Values are
//! Rust syntax, which `syn` judges: a value that stands alone on its line runs to the end of
//! the line; an item of a list runs to the first comma at which its tokens are complete.

use crate::builder::{ParseView, empty_slots};
use crate::propsets::{
    KIND_CONDITIONAL, KIND_DEPENDS, KIND_INIT, KIND_INIT_IF_NEEDED, KIND_NO_INIT, find_kind_from,
};
use crate::syntax::{expr_accepted, fn_arg_accepted, has_c_literal, ident_accepted, lit_str_value_of, path_accepted};
use crate::token::{Delim, TokV, toks_text};
use crate::types::{
    AccountConditionalPropsV, ContextPropV, DslErrorV, LabelledPropV, ParsePropV, PropLabelV, PropValueV, SansView,
    keys_of, parse_props, sans_init_props,
};
use vstd::prelude::*;

verus! {

/// What a value must be, as `syn` reads it.
#[derive(PartialEq, Eq, Structural, Clone, Copy)]
pub enum ValueKind {
    Expr,
    Path,
    FnArg,
    Bool,
    Str,
}

/// Whether `syn` takes the text as a value of the kind.  A text that may hold a C string
/// literal, which `syn` 1 cannot read, is not taken.
pub open spec fn accepted(kind: ValueKind, text: Seq<char>) -> bool {
    &&& !has_c_literal(text)
    &&& match kind {
        ValueKind::Expr => expr_accepted(text),
        ValueKind::Path => path_accepted(text),
        ValueKind::FnArg => fn_arg_accepted(text),
        _ => false,
    }
}

/// The error for a value that is not of the kind.
pub open spec fn kind_error(kind: ValueKind) -> DslErrorV {
    match kind {
        ValueKind::Expr => DslErrorV::ExpectedExpr,
        ValueKind::Path => DslErrorV::ExpectedType,
        ValueKind::FnArg => DslErrorV::ExpectedFnArg,
        ValueKind::Bool => DslErrorV::ExpectedBool,
        ValueKind::Str => DslErrorV::ExpectedString,
    }
}

/// The text that starts every line marker.
pub open spec fn marker_prefix() -> Seq<char> {
    "__indent_"@
}

/// A word that starts like a line marker.
pub open spec fn is_marker_word(s: Seq<char>) -> bool {
    s.len() >= 9 && s.take(9) == marker_prefix()
}

/// The value of a decimal digit.
pub open spec fn digit_value(c: char) -> nat {
    (c as nat - '0' as nat) as nat
}

/// The number written by the digits, if they are all digits, at least one, and the number
/// fits in a `usize`.
pub open spec fn decimal_value(d: Seq<char>) -> Option<nat>
    decreases d.len(),
{
    if d.len() == 0 {
        None
    } else if !('0' <= d.last() <= '9') {
        None
    } else {
        let v = if d.len() == 1 {
            Some(0nat)
        } else {
            decimal_value(d.drop_last())
        };
        match v {
            Some(n) => if n * 10 + digit_value(d.last()) <= usize::MAX {
                Some(n * 10 + digit_value(d.last()))
            } else {
                None
            },
            None => None,
        }
    }
}

/// A line marker of the given level at `i`; gives the position after it.
pub open spec fn indent_check(t: Seq<TokV>, i: int, level: nat) -> Result<int, DslErrorV> {
    if level > 16 {
        Err(DslErrorV::IndentTooDeep)
    } else if !(0 <= i < t.len()) {
        Err(DslErrorV::ExpectedIdent)
    } else {
        match t[i] {
            TokV::Ident(s) => if !ident_accepted(s) {
                Err(DslErrorV::ExpectedIdent)
            } else if !is_marker_word(s) {
                Err(DslErrorV::ExpectedIndent)
            } else {
                match decimal_value(s.skip(9)) {
                    None => Err(DslErrorV::BadIndentNumber),
                    Some(n) => if n != level {
                        Err(DslErrorV::WrongIndent(level, n))
                    } else {
                        Ok(i + 1)
                    },
                }
            },
            _ => Err(DslErrorV::ExpectedIdent),
        }
    }
}

/// A line marker whose level is not a number, where a marker of `level` is looked for: the
/// reader stops there (see `indent_check`).
pub open spec fn bad_marker(t: Seq<TokV>, i: int, level: nat) -> bool {
    &&& level <= 16
    &&& 0 <= i < t.len()
    &&& t[i] matches TokV::Ident(s) && is_marker_word(s) && decimal_value(s.skip(9)) is None
}

/// Whether a line of the given level starts at `i`.  A marker whose level is not a number
/// is an error even here.
pub open spec fn indent_peek(t: Seq<TokV>, i: int, level: nat) -> Result<bool, DslErrorV> {
    match indent_check(t, i, level) {
        Ok(_) => Ok(true),
        Err(DslErrorV::BadIndentNumber) => Err(DslErrorV::BadIndentNumber),
        Err(_) => Ok(false),
    }
}

/// The depth after the token, starting from depth `d`.
pub open spec fn next_depth(tv: TokV, d: nat) -> nat {
    match tv {
        TokV::Open(_) => d + 1,
        TokV::Close(_) => if d > 0 {
            (d - 1) as nat
        } else {
            0
        },
        _ => d,
    }
}

/// The end of the line that holds position `j` at depth `d`: the next line marker outside
/// any group, or the end.
pub open spec fn line_end_from(t: Seq<TokV>, j: int, d: nat) -> int
    decreases t.len() - j,
{
    if j < 0 || j >= t.len() {
        t.len() as int
    } else if d == 0 && (t[j] matches TokV::Ident(s) && is_marker_word(s)) {
        j
    } else {
        line_end_from(t, j + 1, next_depth(t[j], d))
    }
}

/// The position of the token that closes the group whose content starts at `j`, at depth
/// `d`.
pub open spec fn close_from(t: Seq<TokV>, j: int, d: nat) -> Option<int>
    decreases t.len() - j,
{
    if j < 0 || j >= t.len() {
        None
    } else if t[j] is Close && d <= 1 {
        Some(j)
    } else {
        close_from(t, j + 1, next_depth(t[j], d))
    }
}

/// The position of the token that closes the group opened at `i`.
pub open spec fn group_end(t: Seq<TokV>, i: int) -> Option<int> {
    close_from(t, i + 1, 1)
}

/// A group opened at `i` with the delimiter: the position of its closing token.
pub open spec fn group_at(t: Seq<TokV>, i: int, delim: Delim) -> Option<int> {
    if 0 <= i < t.len() && t[i] == TokV::Open(delim) {
        group_end(t, i)
    } else {
        None
    }
}

/// The end of the list item that starts at `a` and is scanned from `k` at depth `d`: the
/// first comma outside any group, or the end `b`, at which the item's tokens are a complete
/// value of the kind.
pub open spec fn item_end_from(t: Seq<TokV>, a: int, k: int, b: int, d: nat, kind: ValueKind) -> Option<int>
    decreases b - k,
{
    if k >= b {
        if accepted(kind, toks_text(t.subrange(a, b))) {
            Some(b)
        } else {
            None
        }
    } else if d == 0 && (t[k] matches TokV::Punct(',', _)) && accepted(kind, toks_text(t.subrange(a, k))) {
        Some(k)
    } else {
        item_end_from(t, a, k + 1, b, next_depth(t[k], d), kind)
    }
}

/// The items of the kind in `a..b`, separated by commas, a trailing comma allowed.
pub open spec fn value_list(t: Seq<TokV>, a: int, b: int, kind: ValueKind) -> Result<Seq<Seq<TokV>>, DslErrorV>
    decreases b - a,
{
    if a >= b {
        Ok(seq![])
    } else {
        match item_end_from(t, a, a, b, 0, kind) {
            None => Err(kind_error(kind)),
            Some(k) => if k >= b {
                Ok(seq![t.subrange(a, b)])
            } else if a <= k {
                match value_list(t, k + 1, b, kind) {
                    Ok(rest) => Ok(seq![t.subrange(a, k)] + rest),
                    Err(e) => Err(e),
                }
            } else {
                Err(kind_error(kind))
            },
        }
    }
}

/// The words in `a..b`, separated by commas, a trailing comma allowed; with `strict`, each
/// must be one that `syn` takes as an identifier.
pub open spec fn word_list(t: Seq<TokV>, a: int, b: int, strict: bool) -> Result<Seq<Seq<char>>, DslErrorV>
    decreases b - a,
{
    if a >= b {
        Ok(seq![])
    } else if !(0 <= a < t.len()) {
        Err(DslErrorV::ExpectedIdent)
    } else {
        match t[a] {
            TokV::Ident(s) => if strict && !ident_accepted(s) {
                Err(DslErrorV::ExpectedIdent)
            } else if a + 1 >= b {
                Ok(seq![s])
            } else if t[a + 1] matches TokV::Punct(',', _) {
                match word_list(t, a + 2, b, strict) {
                    Ok(rest) => Ok(seq![s] + rest),
                    Err(e) => Err(e),
                }
            } else {
                Err(DslErrorV::ExpectedComma)
            },
            _ => Err(DslErrorV::ExpectedIdent),
        }
    }
}

/// A value that stands alone on its line, from `i` to the end of the line.
pub open spec fn line_value(t: Seq<TokV>, i: int, kind: ValueKind) -> Result<(PropValueV, int), DslErrorV> {
    let j = line_end_from(t, i, 0);
    let v = t.subrange(i, j);
    match kind {
        ValueKind::Bool => if v.len() == 1 && v[0] == TokV::Ident("true"@) {
            Ok((PropValueV::Flag(true), j))
        } else if v.len() == 1 && v[0] == TokV::Ident("false"@) {
            Ok((PropValueV::Flag(false), j))
        } else {
            Err(DslErrorV::ExpectedBool)
        },
        ValueKind::Str => if v.len() == 1 && (v[0] matches TokV::Literal(s) && !has_c_literal(s) && lit_str_value_of(s) is Some) {
            Ok((PropValueV::Expr(v), j))
        } else {
            Err(DslErrorV::ExpectedString)
        },
        _ => if accepted(kind, toks_text(v)) {
            Ok((PropValueV::Expr(v), j))
        } else {
            Err(kind_error(kind))
        },
    }
}

/// `[a, b, ..]`: the expressions of an array.
pub open spec fn expr_array(t: Seq<TokV>, i: int) -> Result<(Seq<Seq<TokV>>, int), DslErrorV> {
    match group_at(t, i, Delim::Bracket) {
        None => Err(DslErrorV::ExpectedBracket),
        Some(c) => match value_list(t, i + 1, c, ValueKind::Expr) {
            Ok(es) => Ok((es, c + 1)),
            Err(e) => Err(e),
        },
    }
}

/// `[w, ..]`: the words of an array.
pub open spec fn word_array(t: Seq<TokV>, i: int, strict: bool) -> Result<(Seq<Seq<char>>, int), DslErrorV> {
    match group_at(t, i, Delim::Bracket) {
        None => Err(DslErrorV::ExpectedBracket),
        Some(c) => match word_list(t, i + 1, c, strict) {
            Ok(ws) => Ok((ws, c + 1)),
            Err(e) => Err(e),
        },
    }
}

/// A `:` at `i`.
pub open spec fn colon(t: Seq<TokV>, i: int) -> Result<int, DslErrorV> {
    if 0 <= i < t.len() && (t[i] matches TokV::Punct(':', _)) {
        Ok(i + 1)
    } else {
        Err(DslErrorV::ExpectedColon)
    }
}

/// A `-` at `i`.
pub open spec fn dash(t: Seq<TokV>, i: int) -> Result<int, DslErrorV> {
    if 0 <= i < t.len() && (t[i] matches TokV::Punct('-', _)) {
        Ok(i + 1)
    } else {
        Err(DslErrorV::ExpectedDash)
    }
}

/// Lines `- expr` of the given level, one or more, from `i`.
pub open spec fn dash_exprs(t: Seq<TokV>, i: int, level: nat) -> Result<(Seq<Seq<TokV>>, int), DslErrorV>
    decreases t.len() - i,
{
    match indent_check(t, i, level) {
        Err(e) => Err(e),
        Ok(j) => match dash(t, j) {
            Err(e) => Err(e),
            Ok(j2) => match line_value(t, j2, ValueKind::Expr) {
                Err(e) => Err(e),
                Ok((v, k)) => {
                    let item = match v {
                        PropValueV::Expr(x) => x,
                        _ => seq![],
                    };
                    match indent_peek(t, k, level) {
                        Err(e) => Err(e),
                        Ok(false) => Ok((seq![item], k)),
                        Ok(true) => if k > i {
                            match dash_exprs(t, k, level) {
                                Ok((rest, m)) => Ok((seq![item] + rest, m)),
                                Err(e) => Err(e),
                            }
                        } else {
                            Err(DslErrorV::ExpectedDash)
                        },
                    }
                },
            },
        },
    }
}

/// Lines `- word` of the given level, one or more, from `i`.
pub open spec fn dash_words(t: Seq<TokV>, i: int, level: nat) -> Result<(Seq<Seq<char>>, int), DslErrorV>
    decreases t.len() - i,
{
    match indent_check(t, i, level) {
        Err(e) => Err(e),
        Ok(j) => match dash(t, j) {
            Err(e) => Err(e),
            Ok(j2) => if 0 <= j2 < t.len() && (t[j2] matches TokV::Ident(s) && ident_accepted(s)) {
                let w = t[j2]->Ident_0;
                let k = j2 + 1;
                match indent_peek(t, k, level) {
                    Err(e) => Err(e),
                    Ok(false) => Ok((seq![w], k)),
                    Ok(true) => if k > i {
                        match dash_words(t, k, level) {
                            Ok((rest, m)) => Ok((seq![w] + rest, m)),
                            Err(e) => Err(e),
                        }
                    } else {
                        Err(DslErrorV::ExpectedDash)
                    },
                }
            } else {
                Err(DslErrorV::ExpectedIdent)
            },
        },
    }
}

/// A list of expressions for a property of the given level: an array, or `- expr` lines one
/// level in.
pub open spec fn yaml_exprs(t: Seq<TokV>, i: int, level: nat) -> Result<(Seq<Seq<TokV>>, int), DslErrorV> {
    if 0 <= i < t.len() && t[i] == TokV::Open(Delim::Bracket) {
        expr_array(t, i)
    } else {
        dash_exprs(t, i, level + 1)
    }
}

/// A list of identifiers for a property of the given level: an array, or `- word` lines one
/// level in.
pub open spec fn yaml_words(t: Seq<TokV>, i: int, level: nat) -> Result<(Seq<Seq<char>>, int), DslErrorV> {
    if 0 <= i < t.len() && t[i] == TokV::Open(Delim::Bracket) {
        word_array(t, i, true)
    } else {
        dash_words(t, i, level + 1)
    }
}

/// The end of a path `a :: b :: ..` that starts with the word at `i`.
pub open spec fn path_end(t: Seq<TokV>, i: int) -> Option<int>
    decreases t.len() - i,
{
    if 0 <= i && i + 2 < t.len() && t[i + 1] == TokV::Punct(':', true) && (t[i + 2] matches TokV::Punct(':', _)) {
        if i + 3 < t.len() && t[i + 3] is Ident {
            path_end(t, i + 3)
        } else {
            None
        }
    } else {
        Some(i + 1)
    }
}

/// A property label at `i`: a word, or a path.
pub open spec fn prop_label(t: Seq<TokV>, i: int) -> Result<(PropLabelV, int), DslErrorV> {
    if !(0 <= i < t.len() && t[i] is Ident) {
        Err(DslErrorV::ExpectedIdent)
    } else {
        match path_end(t, i) {
            None => Err(DslErrorV::ExpectedIdent),
            Some(e) => Ok((PropLabelV { text: toks_text(t.subrange(i, e)), path: t.subrange(i, e) }, e)),
        }
    }
}

/// The value of a property of the given kind, for a property of the given level.
pub open spec fn plain_value(t: Seq<TokV>, i: int, level: nat, kind: nat) -> Result<(PropValueV, int), DslErrorV> {
    if kind == 0 || kind == 1 || kind == KIND_INIT_IF_NEEDED {
        line_value(t, i, ValueKind::Bool)
    } else if kind == 3 {
        line_value(t, i, ValueKind::Str)
    } else if kind == 4 {
        match yaml_exprs(t, i, level) {
            Ok((es, j)) => Ok((PropValueV::Exprs(es), j)),
            Err(e) => Err(e),
        }
    } else if kind == 5 {
        line_value(t, i, ValueKind::Path)
    } else if kind == 6 {
        match expr_array(t, i) {
            Ok((es, j)) => Ok((PropValueV::Exprs(es), j)),
            Err(e) => Err(e),
        }
    } else {
        line_value(t, i, ValueKind::Expr)
    }
}

/// `label: value`, for a kind of the property set `props`.
pub open spec fn plain_item(t: Seq<TokV>, i: int, level: nat, props: Seq<nat>) -> Result<
    (LabelledPropV, int),
    DslErrorV,
> {
    match prop_label(t, i) {
        Err(e) => Err(e),
        Ok((lab, j)) => match find_kind_from(props, lab.text, 0) {
            None => Err(DslErrorV::InvalidProperty(lab.text)),
            Some(k) => match colon(t, j) {
                Err(e) => Err(e),
                Ok(j2) => match plain_value(t, j2, level, k) {
                    Err(e) => Err(e),
                    Ok((v, e)) => Ok((LabelledPropV { label: lab, kind: k, value: v }, e)),
                },
            },
        },
    }
}

/// Properties of the set without the init markers, one per line of the given level, one or
/// more, from `i`; a later property replaces an earlier one of its kind.
pub open spec fn sans_list_from(t: Seq<TokV>, i: int, level: nat, acc: SansView) -> Result<(SansView, int), DslErrorV>
    decreases t.len() - i,
{
    match indent_check(t, i, level) {
        Err(e) => Err(e),
        Ok(j) => match plain_item(t, j, level, sans_init_props()) {
            Err(e) => Err(e),
            Ok((p, k)) => {
                let acc2 = acc.update(p.kind as int, Some(p));
                match indent_peek(t, k, level) {
                    Err(e) => Err(e),
                    Ok(false) => Ok((acc2, k)),
                    Ok(true) => if k > i {
                        sans_list_from(t, k, level, acc2)
                    } else {
                        Err(DslErrorV::ExpectedIndent)
                    },
                }
            },
        },
    }
}

pub open spec fn sans_list(t: Seq<TokV>, i: int, level: nat) -> Result<(SansView, int), DslErrorV> {
    sans_list_from(t, i, level, empty_slots())
}

/// `if <arg>:` with its properties one level in, and an optional `else:` at the same level.
pub open spec fn conditional(t: Seq<TokV>, lab: PropLabelV, j: int, level: nat) -> Result<(ParsePropV, int), DslErrorV> {
    if !(0 <= j < t.len() && t[j] is Ident) {
        Err(DslErrorV::ExpectedIdent)
    } else {
        let arg = t[j]->Ident_0;
        match colon(t, j + 1) {
            Err(e) => Err(e),
            Ok(j2) => match sans_list(t, j2, level + 1) {
                Err(e) => Err(e),
                Ok((ifv, m)) => match indent_peek(t, m, level) {
                    Err(e) => Err(e),
                    Ok(more) => if more && m + 1 < t.len() && t[m + 1] == TokV::Ident("else"@) {
                        match colon(t, m + 2) {
                            Err(e) => Err(e),
                            Ok(m2) => match sans_list(t, m2, level + 1) {
                                Err(e) => Err(e),
                                Ok((elsev, m3)) => Ok(
                                    (
                                        ParsePropV::Conditional(
                                            lab,
                                            AccountConditionalPropsV { arg, if_props: ifv, else_props: elsev },
                                        ),
                                        m3,
                                    ),
                                ),
                            },
                        }
                    } else {
                        Ok(
                            (
                                ParsePropV::Conditional(
                                    lab,
                                    AccountConditionalPropsV { arg, if_props: ifv, else_props: empty_slots() },
                                ),
                                m,
                            ),
                        )
                    },
                },
            },
        }
    }
}

/// One property of an account definition, of the given level.
pub open spec fn parse_item(t: Seq<TokV>, i: int, level: nat) -> Result<(ParsePropV, int), DslErrorV> {
    match prop_label(t, i) {
        Err(e) => Err(e),
        Ok((lab, j)) => match find_kind_from(parse_props(), lab.text, 0) {
            None => Err(DslErrorV::InvalidProperty(lab.text)),
            Some(k) => if k == KIND_CONDITIONAL {
                conditional(t, lab, j, level)
            } else {
                match colon(t, j) {
                    Err(e) => Err(e),
                    Ok(j2) => if k == KIND_DEPENDS {
                        match yaml_words(t, j2, level) {
                            Ok((ws, e)) => Ok((ParsePropV::Depends(lab, ws), e)),
                            Err(e) => Err(e),
                        }
                    } else if k == KIND_INIT || k == KIND_NO_INIT {
                        match sans_list(t, j2, level + 1) {
                            Ok((v, e)) => Ok(
                                (
                                    if k == KIND_INIT {
                                        ParsePropV::Init(lab, v)
                                    } else {
                                        ParsePropV::NoInit(lab, v)
                                    },
                                    e,
                                ),
                            ),
                            Err(e) => Err(e),
                        }
                    } else {
                        match plain_value(t, j2, level, k) {
                            Ok((v, e)) => Ok((ParsePropV::Plain(LabelledPropV { label: lab, kind: k, value: v }), e)),
                            Err(e) => Err(e),
                        }
                    },
                }
            },
        },
    }
}

/// The kind of a property as written.
pub open spec fn parse_kind(p: ParsePropV) -> nat {
    match p {
        ParsePropV::Plain(x) => x.kind,
        ParsePropV::Depends(..) => KIND_DEPENDS as nat,
        ParsePropV::Init(..) => KIND_INIT as nat,
        ParsePropV::NoInit(..) => KIND_NO_INIT as nat,
        ParsePropV::Conditional(..) => KIND_CONDITIONAL as nat,
    }
}

/// The properties of an account definition, one per line of the given level, one or more,
/// from `i`; a later property replaces an earlier one of its kind.
pub open spec fn def_list_from(t: Seq<TokV>, i: int, level: nat, acc: ParseView) -> Result<(ParseView, int), DslErrorV>
    decreases t.len() - i,
{
    match indent_check(t, i, level) {
        Err(e) => Err(e),
        Ok(j) => match parse_item(t, j, level) {
            Err(e) => Err(e),
            Ok((p, k)) => {
                let acc2 = acc.update(parse_kind(p) as int, Some(p));
                match indent_peek(t, k, level) {
                    Err(e) => Err(e),
                    Ok(false) => Ok((acc2, k)),
                    Ok(true) => if k > i {
                        def_list_from(t, k, level, acc2)
                    } else {
                        Err(DslErrorV::ExpectedIndent)
                    },
                }
            },
        },
    }
}

pub open spec fn def_list(t: Seq<TokV>, i: int, level: nat) -> Result<(ParseView, int), DslErrorV> {
    def_list_from(t, i, level, empty_slots())
}

/// The word at `j`, if `syn` takes it as an identifier.
pub open spec fn ident_at(t: Seq<TokV>, j: int) -> Option<Seq<char>> {
    if 0 <= j < t.len() && (t[j] matches TokV::Ident(s) && ident_accepted(s)) {
        Some(t[j]->Ident_0)
    } else {
        None
    }
}

/// One line of a context: `instruction: (args)`, or an account with optional `: [args]`.
pub open spec fn ctx_item(t: Seq<TokV>, i: int) -> Result<(ContextPropV, int), DslErrorV> {
    match ident_at(t, i) {
        None => Err(DslErrorV::ExpectedIdent),
        Some(s) => if s == "instruction"@ {
            match colon(t, i + 1) {
                Err(e) => Err(e),
                Ok(j) => match group_at(t, j, Delim::Paren) {
                    None => Err(DslErrorV::ExpectedParen),
                    Some(c) => match value_list(t, j + 1, c, ValueKind::FnArg) {
                        Ok(args) => Ok((ContextPropV::Instruction { args }, c + 1)),
                        Err(e) => Err(e),
                    },
                },
            }
        } else if i + 1 < t.len() && (t[i + 1] matches TokV::Punct(':', _)) {
            match word_array(t, i + 2, false) {
                Ok((args, e)) => Ok((ContextPropV::Account { name: s, args }, e)),
                Err(e) => Err(e),
            }
        } else {
            Ok((ContextPropV::Account { name: s, args: seq![] }, i + 1))
        },
    }
}

/// The lines of a context, one per line of the given level, one or more, from `i`.
pub open spec fn ctx_list_from(t: Seq<TokV>, i: int, level: nat, acc: Seq<ContextPropV>) -> Result<
    (Seq<ContextPropV>, int),
    DslErrorV,
>
    decreases t.len() - i,
{
    match indent_check(t, i, level) {
        Err(e) => Err(e),
        Ok(j) => match ctx_item(t, j) {
            Err(e) => Err(e),
            Ok((p, k)) => {
                let acc2 = acc.push(p);
                match indent_peek(t, k, level) {
                    Err(e) => Err(e),
                    Ok(false) => Ok((acc2, k)),
                    Ok(true) => if k > i {
                        ctx_list_from(t, k, level, acc2)
                    } else {
                        Err(DslErrorV::ExpectedIndent)
                    },
                }
            },
        },
    }
}

/// A document's contexts and account definitions, each in order.
pub type DocView = (Seq<(Seq<char>, Seq<ContextPropV>)>, Seq<(Seq<char>, ParseView)>);

/// The entries of a document from `i` on, after the given contexts and definitions.
pub open spec fn doc_from(t: Seq<TokV>, i: int, acc: DocView) -> Result<DocView, DslErrorV>
    decreases t.len() - i,
{
    if i < 0 || i >= t.len() {
        Ok(acc)
    } else {
        match indent_check(t, i, 0) {
            Err(e) => Err(e),
            Ok(j) => match ident_at(t, j) {
                None => Err(DslErrorV::ExpectedIdent),
                Some(name) => if name == "context"@ {
                    match ident_at(t, j + 1) {
                        None => Err(DslErrorV::ExpectedIdent),
                        Some(cname) => match colon(t, j + 2) {
                            Err(e) => Err(e),
                            Ok(k) => match ctx_list_from(t, k, 1, seq![]) {
                                Err(e) => Err(e),
                                Ok((props, m)) => if keys_of(acc.0).contains(cname) {
                                    Err(DslErrorV::DuplicateKey(cname))
                                } else if i < m <= t.len() {
                                    doc_from(t, m, (acc.0.push((cname, props)), acc.1))
                                } else {
                                    Err(DslErrorV::ExpectedIndent)
                                },
                            },
                        },
                    }
                } else if keys_of(acc.1).contains(name) {
                    Err(DslErrorV::DuplicateAccount(name))
                } else {
                    match colon(t, j + 1) {
                        Err(e) => Err(e),
                        Ok(k) => match def_list(t, k, 1) {
                            Err(e) => Err(e),
                            Ok((def, m)) => if i < m <= t.len() {
                                doc_from(t, m, (acc.0, acc.1.push((name, def))))
                            } else {
                                Err(DslErrorV::ExpectedIndent)
                            },
                        },
                    }
                },
            },
        }
    }
}

/// A whole document.
pub open spec fn spec_doc(t: Seq<TokV>) -> Result<DocView, DslErrorV> {
    doc_from(t, 0, (seq![], seq![]))
}

/// The reading of the document stops where no document can be given: at an account
/// defined twice, or at a line marker whose level is not a number.
pub open spec fn doc_halts(t: Seq<TokV>) -> bool {
    spec_doc(t) matches Err(e) && (e is DuplicateAccount || e is BadIndentNumber)
}

} // verus!
