//! What the library takes from `syn` (Rust syntax) and from std's text functions.

use crate::module::{ModuleAttr, ModuleField, ModuleStruct, ModuleStructV, TokTree, TokTreeV, opt_structs_view, opt_trees_view};
use crate::token::{Delim, Tok};
use proc_macro2::{Delimiter, Spacing, TokenTree};
use syn::{Attribute, Item, ItemMod};
use quote::ToTokens;
use vstd::prelude::*;
use vstd::utf8::{decode_utf8, valid_utf8};

verus! {

/// An optional string, by its characters.
pub open spec fn opt_chars(o: Option<String>) -> Option<Seq<char>> {
    match o {
        Some(s) => Some(s@),
        None => None,
    }
}

/// A character that may stand right before a literal's first character only when the two
/// belong to one token: an ASCII letter, digit or `_` (a literal's suffix or an
/// identifier), or a closing quote (a literal's suffix).
pub open spec fn joins_next(c: char) -> bool {
    ('a' <= c <= 'z') || ('A' <= c <= 'Z') || ('0' <= c <= '9') || c == '_' || c == '"' || c == '\''
}

/// A C string literal (`c"..."`, `cr"..."`, `cr#"..."#`) may start at position `i`.
pub open spec fn c_literal_at(s: Seq<char>, i: int) -> bool {
    &&& 0 <= i < s.len()
    &&& s[i] == 'c'
    &&& (i == 0 || !joins_next(s[i - 1]))
    &&& ((i + 1 < s.len() && s[i + 1] == '"') || (i + 2 < s.len() && s[i + 1] == 'r' && (s[i + 2] == '"' || s[i
        + 2] == '#')))
}

/// The text may hold a C string literal.  `syn` 1 has no kind of literal for it: making
/// one panics (`Lit::new`).  Every place where such a literal can start is counted, also
/// inside other literals and comments.
pub open spec fn has_c_literal(s: Seq<char>) -> bool {
    exists|i: int| #[trigger] c_literal_at(s, i)
}

/// Whether the text may hold a C string literal (see `has_c_literal`).
pub fn holds_c_literal(text: &str) -> (r: bool)
    ensures
        r == has_c_literal(text@),
{
    let cs = crate::text::chars_of(text);
    let n = cs.len();
    let mut i: usize = 0;
    while i < n
        invariant
            n == cs@.len(),
            cs@ == text@,
            i <= n,
            forall|j: int| 0 <= j < i ==> !c_literal_at(text@, j),
        decreases n - i,
    {
        let start = i == 0 || {
            let p = cs[i - 1];
            !(('a' <= p && p <= 'z') || ('A' <= p && p <= 'Z') || ('0' <= p && p <= '9') || p == '_' || p == '"'
                || p == '\'')
        };
        if cs[i] == 'c' && start {
            if i + 1 < n && cs[i + 1] == '"' {
                assert(c_literal_at(text@, i as int));
                return true;
            }
            if i + 1 < n && cs[i + 1] == 'r' && i + 2 < n && (cs[i + 2] == '"' || cs[i + 2] == '#') {
                assert(c_literal_at(text@, i as int));
                return true;
            }
        }
        i = i + 1;
    }
    false
}

/// The value of the string literal written as `text`, when `text` is one.
pub uninterp spec fn lit_str_value_of(text: Seq<char>) -> Option<Seq<char>>;

/// `syn::parse_str::<syn::LitStr>` on the literal's text, then `LitStr::value`: the
/// literal's contents with its escapes resolved.  The contract names the result and ties it
/// to the text; what the value is, for a given text, is left to `syn`.  A text that may
/// hold a C string literal is not admitted: `syn` panics on it.
#[verifier::external_body]
pub(crate) fn lit_str_value(text: &str) -> (r: Option<String>)
    requires
        !has_c_literal(text@),
    ensures
        opt_chars(r) == lit_str_value_of(text@),
{
    match syn::parse_str::<syn::LitStr>(text) {
        Ok(l) => Some(l.value()),
        Err(_) => None,
    }
}

/// The bytes of the byte string literal written as `text`, when `text` is one.
pub uninterp spec fn byte_str_value_of(text: Seq<char>) -> Option<Seq<u8>>;

/// `syn::parse_str::<syn::LitByteStr>` on the literal's text, then `LitByteStr::value`.
/// The contract names the result and ties it to the text.  A text that may hold a C
/// string literal is not admitted: `syn` panics on it.
#[verifier::external_body]
pub(crate) fn byte_str_value(text: &str) -> (r: Option<Vec<u8>>)
    requires
        !has_c_literal(text@),
    ensures
        match r {
            Some(v) => byte_str_value_of(text@) == Some(v@),
            None => byte_str_value_of(text@) is None,
        },
{
    match syn::parse_str::<syn::LitByteStr>(text) {
        Ok(l) => Some(l.value()),
        Err(_) => None,
    }
}

/// Whether `syn` reads the whole text as one path.
pub uninterp spec fn path_accepted(text: Seq<char>) -> bool;

/// `syn::parse_str::<syn::Path>` on a text, then the path's `Debug` form.  It gives a form
/// exactly when `syn` reads the whole text as a path; nothing is stated of the form itself:
/// it holds the tokens' spans, which depend on where the macro runs.  A text that may hold
/// a C string literal is not admitted: `syn` panics on one in a generic argument.
#[verifier::external_body]
pub(crate) fn path_debug(text: &str) -> (r: Option<String>)
    requires
        !has_c_literal(text@),
    ensures
        r is Some <==> path_accepted(text@),
{
    match syn::parse_str::<syn::Path>(text) {
        Ok(p) => Some(format!("{:?}", p)),
        Err(_) => None,
    }
}

/// `String::from_utf8`: the string whose UTF-8 encoding the bytes are, if they are valid
/// UTF-8.
#[verifier::external_body]
pub(crate) fn string_from_utf8(bytes: Vec<u8>) -> (r: Option<String>)
    ensures
        r is Some <==> valid_utf8(bytes@),
        r matches Some(s) ==> s@ == decode_utf8(bytes@),
{
    String::from_utf8(bytes).ok()
}

/// The upper-case form of a text, as `str::to_uppercase` gives it.
pub uninterp spec fn uppercase_of(s: Seq<char>) -> Seq<char>;

/// `str::to_uppercase`.  The contract names the result and ties it to the text.
#[verifier::external_body]
pub(crate) fn to_uppercase(s: &str) -> (r: String)
    ensures
        r@ == uppercase_of(s@),
{
    s.to_uppercase()
}

/// The words that `syn` does not take as an identifier.
pub open spec fn syn_keyword(w: Seq<char>) -> bool {
    seq![
        "_"@, "abstract"@, "as"@, "become"@, "box"@, "break"@, "const"@, "continue"@, "crate"@, "do"@, "else"@,
        "enum"@, "extern"@, "false"@, "final"@, "fn"@, "for"@, "if"@, "impl"@, "in"@, "let"@, "loop"@, "macro"@,
        "match"@, "mod"@, "move"@, "mut"@, "override"@, "priv"@, "pub"@, "ref"@, "return"@, "Self"@, "self"@,
        "static"@, "struct"@, "super"@, "trait"@, "true"@, "type"@, "typeof"@, "unsafe"@, "unsized"@, "use"@,
        "virtual"@, "where"@, "while"@, "yield"@,
    ].contains(w)
}

/// A word of ASCII letters, digits and `_` that does not start with a digit.
pub open spec fn is_plain_word(w: Seq<char>) -> bool {
    &&& w.len() > 0
    &&& !('0' <= w[0] <= '9')
    &&& forall|i: int|
        0 <= i < w.len() ==> ('a' <= #[trigger] w[i] <= 'z' || 'A' <= w[i] <= 'Z' || '0' <= w[i] <= '9' || w[i]
            == '_')
}

/// Whether `syn` reads the text as an identifier.
pub uninterp spec fn ident_accepted(text: Seq<char>) -> bool;

/// `syn::parse_str::<syn::Ident>`: succeeds on an identifier that is not one of the words
/// `syn` reserves (`accept_as_ident` in syn's `ident.rs`).  The contract names the result,
/// and states it for plain ASCII words.
#[verifier::external_body]
pub(crate) fn accepts_ident(text: &str) -> (r: bool)
    ensures
        r == ident_accepted(text@),
        is_plain_word(text@) ==> r == !syn_keyword(text@),
{
    syn::parse_str::<syn::Ident>(text).is_ok()
}

/// Whether `syn` reads the whole text as one Rust expression.
pub uninterp spec fn expr_accepted(text: Seq<char>) -> bool;

/// `syn::parse_str::<syn::Expr>`: succeeds when the whole text is one expression.  The
/// contract names the result and ties it to the text.  A text that may hold a C string
/// literal is not admitted: `syn` panics on it.
#[verifier::external_body]
pub(crate) fn accepts_expr(text: &str) -> (r: bool)
    requires
        !has_c_literal(text@),
    ensures
        r == expr_accepted(text@),
{
    syn::parse_str::<syn::Expr>(text).is_ok()
}

/// Whether `syn` reads the whole text as one function argument.
pub uninterp spec fn fn_arg_accepted(text: Seq<char>) -> bool;

/// `syn::parse_str::<syn::FnArg>`: succeeds when the whole text is one function argument
/// (`name: Type`, or a receiver).  The contract names the result and ties it to the text.
/// A text that may hold a C string literal is not admitted: `syn` panics on one in a type.
#[verifier::external_body]
pub(crate) fn accepts_fn_arg(text: &str) -> (r: bool)
    requires
        !has_c_literal(text@),
    ensures
        r == fn_arg_accepted(text@),
{
    syn::parse_str::<syn::FnArg>(text).is_ok()
}

/// The structs of the module written as `text`, when `syn` reads it as a module with its
/// items inside.
pub uninterp spec fn module_structs_of(text: Seq<char>) -> Option<Seq<ModuleStructV>>;

/// `syn::parse_str::<syn::ItemMod>`, then each struct among the module's items, in order:
/// its name, and its and its fields' attributes as path and tokens in text.  The contract
/// names the result and ties it to the text.  A text that may hold a C string literal is
/// not admitted: `syn` panics on one in an item.
#[verifier::external_body]
pub(crate) fn module_structs(text: &str) -> (r: Option<Vec<ModuleStruct>>)
    requires
        !has_c_literal(text@),
    ensures
        opt_structs_view(r) == module_structs_of(text@),
{
    let attrs = |v: &Vec<Attribute>| {
        v.iter().map(|a| ModuleAttr { path: a.path.to_token_stream().to_string(), tokens: a.tokens.to_string() }).collect()
    };
    let items = syn::parse_str::<ItemMod>(text).ok()?.content?.1;
    Some(items.iter().filter_map(|i| match i { Item::Struct(s) => Some(s), _ => None }).map(|s| ModuleStruct {
        name: s.ident.to_string(),
        attrs: attrs(&s.attrs),
        fields: s.fields.iter().map(|f| ModuleField { name: f.ident.as_ref().map(ToString::to_string), attrs: attrs(&f.attrs) }).collect(),
    }).collect())
}

/// The token trees of the text `text`, when it lexes.
pub uninterp spec fn token_trees_of(text: Seq<char>) -> Option<Seq<TokTreeV>>;

/// `proc_macro2::TokenStream::from_str`, then each tree of the stream: a group by its
/// delimiter and its content as text, any other token as itself.  The contract names the
/// result and ties it to the text.
#[verifier::external_body]
pub(crate) fn token_trees(text: &str) -> (r: Option<Vec<TokTree>>)
    ensures
        opt_trees_view(r) == token_trees_of(text@),
{
    let ts = text.parse::<proc_macro2::TokenStream>().ok()?;
    Some(ts.into_iter().map(|t| match t {
        TokenTree::Group(g) => TokTree::Group(match g.delimiter() {
            Delimiter::Parenthesis => Delim::Paren, Delimiter::Bracket => Delim::Bracket,
            Delimiter::Brace => Delim::Brace, Delimiter::None => Delim::Invisible,
        }, g.stream().to_string()),
        TokenTree::Ident(i) => TokTree::Leaf(Tok::Ident(i.to_string())),
        TokenTree::Punct(p) => TokTree::Leaf(Tok::Punct(p.as_char(), p.spacing() == Spacing::Joint)),
        TokenTree::Literal(l) => TokTree::Leaf(Tok::Literal(l.to_string())),
    }).collect())
}

} // verus!
