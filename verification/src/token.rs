//! The token model the library works on.
//!
//! A macro input is a tree of tokens; here it is flattened: a delimited group is an
//! `Open` token, the group's tokens, and a matching `Close` token.

use crate::text::{push_str, str_eq};
use vstd::prelude::*;

verus! {

/// The delimiter of a group.
#[derive(PartialEq, Eq, Structural, Clone, Copy, Debug)]
pub enum Delim {
    Paren,
    Bracket,
    Brace,
    Invisible,
}

/// One token.  `Punct` carries its character and whether it is joined to the next token
/// (as the two characters of `::` are).
#[derive(Debug)]
pub enum Tok {
    Ident(String),
    Punct(char, bool),
    Literal(String),
    Open(Delim),
    Close(Delim),
}

/// The abstract value of a token.
pub enum TokV {
    Ident(Seq<char>),
    Punct(char, bool),
    Literal(Seq<char>),
    Open(Delim),
    Close(Delim),
}

impl View for Tok {
    type V = TokV;

    open spec fn view(&self) -> TokV {
        match self {
            Tok::Ident(s) => TokV::Ident(s@),
            Tok::Punct(c, j) => TokV::Punct(*c, *j),
            Tok::Literal(s) => TokV::Literal(s@),
            Tok::Open(d) => TokV::Open(*d),
            Tok::Close(d) => TokV::Close(*d),
        }
    }
}

/// The abstract value of a token sequence.
pub open spec fn toks_view(v: Seq<Tok>) -> Seq<TokV> {
    v.map_values(|t: Tok| t@)
}

/// The abstract value of a list of token sequences.
pub open spec fn tok_lists_view(v: Seq<Vec<Tok>>) -> Seq<Seq<TokV>> {
    v.map_values(|t: Vec<Tok>| toks_view(t@))
}

/// The abstract value of a list of strings.
pub open spec fn strings_view(v: Seq<String>) -> Seq<Seq<char>> {
    v.map_values(|s: String| s@)
}

impl Tok {
    pub fn dup(&self) -> (r: Tok)
        ensures
            r@ == self@,
    {
        match self {
            Tok::Ident(s) => Tok::Ident(s.clone()),
            Tok::Punct(c, j) => Tok::Punct(*c, *j),
            Tok::Literal(s) => Tok::Literal(s.clone()),
            Tok::Open(d) => Tok::Open(*d),
            Tok::Close(d) => Tok::Close(*d),
        }
    }

    /// Whether the token is the identifier `word`.
    pub fn is_ident(&self, word: &str) -> (r: bool)
        ensures
            r == (self@ == TokV::Ident(word@)),
    {
        match self {
            Tok::Ident(s) => str_eq(s.as_str(), word),
            _ => false,
        }
    }
}

/// A copy of a token sequence.
pub fn dup_toks(v: &[Tok]) -> (r: Vec<Tok>)
    ensures
        toks_view(r@) == toks_view(v@),
{
    let mut out: Vec<Tok> = Vec::new();
    let mut i: usize = 0;
    while i < v.len()
        invariant
            i <= v@.len(),
            out@.len() == i,
            forall|j: int| 0 <= j < i ==> (#[trigger] out@[j])@ == v@[j]@,
        decreases v@.len() - i,
    {
        out.push(v[i].dup());
        i = i + 1;
    }
    assert(toks_view(out@) =~= toks_view(v@));
    out
}

/// A copy of a list of token sequences.
pub fn dup_tok_lists(v: &Vec<Vec<Tok>>) -> (r: Vec<Vec<Tok>>)
    ensures
        tok_lists_view(r@) == tok_lists_view(v@),
{
    let mut out: Vec<Vec<Tok>> = Vec::new();
    let mut i: usize = 0;
    while i < v.len()
        invariant
            i <= v@.len(),
            out@.len() == i,
            forall|j: int| 0 <= j < i ==> toks_view((#[trigger] out@[j])@) == toks_view(v@[j]@),
        decreases v@.len() - i,
    {
        out.push(dup_toks(v[i].as_slice()));
        i = i + 1;
    }
    assert(tok_lists_view(out@) =~= tok_lists_view(v@));
    out
}

/// A copy of a list of strings.
pub fn dup_strings(v: &Vec<String>) -> (r: Vec<String>)
    ensures
        strings_view(r@) == strings_view(v@),
{
    let mut out: Vec<String> = Vec::new();
    let mut i: usize = 0;
    while i < v.len()
        invariant
            i <= v@.len(),
            out@.len() == i,
            forall|j: int| 0 <= j < i ==> (#[trigger] out@[j])@ == v@[j]@,
        decreases v@.len() - i,
    {
        out.push(v[i].clone());
        i = i + 1;
    }
    assert(strings_view(out@) =~= strings_view(v@));
    out
}

/// The source text of one token.
pub open spec fn tok_text(t: TokV) -> Seq<char> {
    match t {
        TokV::Ident(s) => s,
        TokV::Punct(c, _) => seq![c],
        TokV::Literal(s) => s,
        TokV::Open(d) => match d {
            Delim::Paren => seq!['('],
            Delim::Bracket => seq!['['],
            Delim::Brace => seq!['{', ' '],
            Delim::Invisible => seq![],
        },
        TokV::Close(d) => match d {
            Delim::Paren => seq![')'],
            Delim::Bracket => seq![']'],
            Delim::Brace => seq!['}'],
            Delim::Invisible => seq![],
        },
    }
}

/// Whether a space follows the token when a sequence is written out: not after a joined
/// punctuation character, an opening delimiter, or the last token.
pub open spec fn space_after(s: Seq<TokV>, i: int) -> bool {
    &&& i + 1 < s.len()
    &&& !(s[i] matches TokV::Punct(_, true))
    &&& !(s[i] is Open)
    &&& !(s[i + 1] is Close)
}

/// The text of the last token of `s`: a closing brace of a group that is not empty has a
/// space before it, as its opening brace has one after it.
pub open spec fn last_text(s: Seq<TokV>) -> Seq<char> {
    if s.last() == TokV::Close(Delim::Brace) && !(s.len() >= 2 && s[s.len() - 2] == TokV::Open(Delim::Brace)) {
        seq![' ', '}']
    } else {
        tok_text(s.last())
    }
}

/// The source text of a token sequence: the tokens' texts, one space between two tokens
/// except after a joined punctuation character or an opening delimiter, or before a
/// closing one; braces have a space inside when the group is not empty.
pub open spec fn toks_text(s: Seq<TokV>) -> Seq<char>
    decreases s.len(),
{
    if s.len() == 0 {
        seq![]
    } else {
        let prev = s.drop_last();
        let i = s.len() - 2;
        toks_text(prev) + (if i >= 0 && space_after(s, i) {
            seq![' ']
        } else {
            seq![]
        }) + last_text(s)
    }
}

fn push_tok_text(out: &mut Vec<char>, t: &Tok)
    ensures
        final(out)@ == old(out)@ + tok_text(t@),
{
    match t {
        Tok::Ident(s) => push_str(out, s.as_str()),
        Tok::Punct(c, _) => out.push(*c),
        Tok::Literal(s) => push_str(out, s.as_str()),
        Tok::Open(d) => match d {
            Delim::Paren => out.push('('),
            Delim::Bracket => out.push('['),
            Delim::Brace => {
                out.push('{');
                out.push(' ');
            },
            Delim::Invisible => {},
        },
        Tok::Close(d) => match d {
            Delim::Paren => out.push(')'),
            Delim::Bracket => out.push(']'),
            Delim::Brace => out.push('}'),
            Delim::Invisible => {},
        },
    }
    proof {
        assert(final(out)@ =~= old(out)@ + tok_text(t@));
    }
}

/// Writes out a token sequence as source text.
pub fn tokens_text(toks: &[Tok]) -> (r: Vec<char>)
    ensures
        r@ == toks_text(toks_view(toks@)),
{
    let mut out: Vec<char> = Vec::new();
    let mut i: usize = 0;
    let ghost s = toks_view(toks@);
    while i < toks.len()
        invariant
            i <= toks@.len(),
            s == toks_view(toks@),
            out@ == toks_text(s.subrange(0, i as int)),
        decreases toks@.len() - i,
    {
        let ghost pre = s.subrange(0, i as int + 1);
        if i > 0 {
            let joined = match &toks[i - 1] {
                Tok::Punct(_, j) => *j,
                Tok::Open(_) => true,
                _ => false,
            } || match &toks[i] {
                Tok::Close(_) => true,
                _ => false,
            };
            if !joined {
                out.push(' ');
            }
        }
        let brace_after_content = match &toks[i] {
            Tok::Close(Delim::Brace) => i == 0 || !matches!(toks[i - 1], Tok::Open(Delim::Brace)),
            _ => false,
        };
        if brace_after_content {
            out.push(' ');
            out.push('}');
        } else {
            push_tok_text(&mut out, &toks[i]);
        }
        proof {
            assert(pre.drop_last() =~= s.subrange(0, i as int));
            assert(pre.last() == s[i as int]);
            if i > 0 {
                assert(pre[i - 1] == s[i - 1]);
            }
        }
        i = i + 1;
    }
    assert(s.subrange(0, toks@.len() as int) =~= s);
    out
}

} // verus!
