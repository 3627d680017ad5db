//! Compiling built contexts: each context's accounts in their order, with their seed
//! constants taken out, and the constants of the whole document.

use crate::order::{SortKey, is_permutation, key_view, permute, sort_order, sorted_by};
use crate::propsets::KIND_ACCOUNT_TYPE;
use crate::render::{
    CompiledAccount, CompiledAccountV, account_consts, compile_account, consts_view, extract_account_constants,
    rewrite_account, spec_compile_account, value_tokens, value_toks,
};
use crate::syntax::{has_c_literal, holds_c_literal, path_accepted, path_debug};
use crate::text::{chars_lt, chars_of, push_all, push_str, replace_all, replace_chars, seq_lt, str_eq, string_of};
use crate::token::{Tok, TokV, tok_lists_view, toks_text, toks_view, tokens_text};
use crate::types::{AccountType, BuiltAccount, BuiltContext, BuiltContextV, BuiltContexts, KeyedVec, RealView};
use vstd::prelude::*;

verus! {

/// Every account has a type.
pub open spec fn all_typed(accts: Seq<(Seq<char>, RealView)>) -> bool {
    forall|i: int| 0 <= i < accts.len() ==> (#[trigger] accts[i]).1[KIND_ACCOUNT_TYPE as int] is Some
}

/// The text with each line break turned into a space.
pub open spec fn nl_to_space(s: Seq<char>) -> Seq<char> {
    s.map_values(|c: char| if c == '\n' { ' ' } else { c })
}

/// One argument of an `#[account(..)]` attribute as a line: indented by eight spaces.
pub open spec fn meta_line(m: Seq<TokV>) -> Seq<char> {
    nl_to_space("        "@ + toks_text(m))
}

/// The lines joined by `,` and a line break.
pub open spec fn join_lines(ls: Seq<Seq<char>>) -> Seq<char>
    decreases ls.len(),
{
    if ls.len() == 0 {
        seq![]
    } else if ls.len() == 1 {
        ls[0]
    } else {
        join_lines(ls.drop_last()) + ",\n"@ + ls.last()
    }
}

/// The text of an `#[account(..)]` attribute with the given arguments, one per line.
pub open spec fn metas_attr_text(ms: Seq<Seq<TokV>>) -> Seq<char> {
    "#[account(\n"@ + join_lines(ms.map_values(|m: Seq<TokV>| meta_line(m))) + "\n    )]"@
}

/// Writes an `#[account(..)]` attribute as text (see `metas_attr_text`).
pub fn format_metas(metas: &Vec<Vec<Tok>>) -> (r: String)
    ensures
        r@ == metas_attr_text(tok_lists_view(metas@)),
{
    let ghost lines = tok_lists_view(metas@).map_values(|m: Seq<TokV>| meta_line(m));
    let mut out: Vec<char> = Vec::new();
    push_str(&mut out, "#[account(\n");
    let ghost head = out@;
    let mut i: usize = 0;
    while i < metas.len()
        invariant
            i <= metas@.len(),
            lines == tok_lists_view(metas@).map_values(|m: Seq<TokV>| meta_line(m)),
            lines.len() == metas@.len(),
            out@ == head + join_lines(lines.take(i as int)),
        decreases metas@.len() - i,
    {
        let ghost pre = out@;
        if i > 0 {
            push_str(&mut out, ",\n");
        }
        let text = tokens_text(metas[i].as_slice());
        let mut line: Vec<char> = Vec::new();
        push_str(&mut line, "        ");
        let ghost lead = line@;
        let mut k: usize = 0;
        while k < text.len()
            invariant
                k <= text@.len(),
                line@ == lead + nl_to_space(text@.take(k as int)),
            decreases text@.len() - k,
        {
            let c = text[k];
            line.push(if c == '\n' { ' ' } else { c });
            assert(nl_to_space(text@.take(k + 1)) =~= nl_to_space(text@.take(k as int)).push(
                if c == '\n' { ' ' } else { c },
            ));
            k = k + 1;
        }
        proof {
            assert(text@.take(text@.len() as int) =~= text@);
            assert(lines[i as int] == meta_line(toks_view(metas@[i as int]@)));
            assert(nl_to_space("        "@ + text@) =~= nl_to_space("        "@) + nl_to_space(text@));
            reveal_strlit("        ");
            assert(nl_to_space("        "@) =~= "        "@);
            assert(line@ == lines[i as int]);
        }
        push_all(&mut out, line.as_slice());
        proof {
            let t = lines.take(i + 1);
            assert(t.drop_last() =~= lines.take(i as int));
            if i == 0 {
                assert(join_lines(t) == t[0]);
                assert(out@ =~= head + join_lines(t));
            } else {
                assert(out@ =~= head + join_lines(t));
            }
        }
        i = i + 1;
    }
    push_str(&mut out, "\n    )]");
    proof {
        assert(lines.take(metas@.len() as int) =~= lines);
    }
    string_of(out.as_slice())
}

/// The text of the generated code laid out for reading: each `#[account(..)]` string
/// becomes the attribute itself on a line of its own, with its escaped line breaks and
/// quotes restored, and each context struct starts after blank lines.
pub open spec fn laid_out(code: Seq<char>) -> Seq<char> {
    let a = replace_all(code, "\"#[account("@, "\n#[account("@);
    let b = replace_all(a, ")]\""@, ")]"@);
    let c = replace_all(b, "\\n"@, "\n"@);
    let d = replace_all(c, "\\\""@, "\""@);
    replace_all(d, "#[derive(Accounts)]"@, "\n\n\n#[derive(Accounts)]"@)
}

/// Lays out the text of the generated code for reading (see `laid_out`).
pub fn lay_out_code(code: &str) -> (r: String)
    ensures
        r@ == laid_out(code@),
{
    proof {
        reveal_strlit("\"#[account(");
        reveal_strlit(")]\"");
        reveal_strlit("\\n");
        reveal_strlit("\\\"");
        reveal_strlit("#[derive(Accounts)]");
    }
    let c = chars_of(code);
    let a = replace_chars(&c, "\"#[account(", "\n#[account(");
    let b = replace_chars(&a, ")]\"", ")]");
    let c2 = replace_chars(&b, "\\n", "\n");
    let d = replace_chars(&c2, "\\\"", "\"");
    let e = replace_chars(&d, "#[derive(Accounts)]", "\n\n\n#[derive(Accounts)]");
    string_of(e.as_slice())
}

/// Whether every account has a type.
pub fn accounts_typed(accounts: &KeyedVec<BuiltAccount>) -> (r: bool)
    requires
        forall|j: int| 0 <= j < accounts.0@.len() ==> (#[trigger] accounts.0@[j]).1.wf(),
    ensures
        r == all_typed(accounts@),
{
    let mut j: usize = 0;
    while j < accounts.0.len()
        invariant
            forall|q: int| 0 <= q < accounts.0@.len() ==> (#[trigger] accounts.0@[q]).1.wf(),
            j <= accounts.0@.len(),
            forall|q: int| 0 <= q < j ==> (#[trigger] accounts@[q]).1[KIND_ACCOUNT_TYPE as int] is Some,
        decreases accounts.0@.len() - j,
    {
        assert(accounts@[j as int].1 == accounts.0@[j as int].1@);
        if !accounts.0[j].1.0.has::<AccountType>() {
            return false;
        }
        j = j + 1;
    }
    true
}

/// Whether every account of every context has a type.
pub fn contexts_typed(contexts: &BuiltContexts) -> (r: bool)
    requires
        forall|i: int| 0 <= i < contexts.0.0@.len() ==> (#[trigger] contexts.0.0@[i]).1.wf(),
    ensures
        r == forall|i: int| 0 <= i < contexts.0.0@.len() ==> all_typed((#[trigger] contexts.0.0@[i]).1@.accounts),
{
    let mut i: usize = 0;
    while i < contexts.0.0.len()
        invariant
            forall|q: int| 0 <= q < contexts.0.0@.len() ==> (#[trigger] contexts.0.0@[q]).1.wf(),
            i <= contexts.0.0@.len(),
            forall|q: int| 0 <= q < i ==> all_typed((#[trigger] contexts.0.0@[q]).1@.accounts),
        decreases contexts.0.0@.len() - i,
    {
        if !accounts_typed(&contexts.0.0[i].1.accounts) {
            return false;
        }
        i = i + 1;
    }
    true
}

/// A context as compiled: its name, its instruction arguments, and its accounts in order.
pub struct CompiledContext {
    pub name: String,
    pub instruction: Option<Vec<Vec<Tok>>>,
    pub accounts: Vec<CompiledAccount>,
}

pub struct CompiledContextV {
    pub name: Seq<char>,
    pub instruction: Option<Seq<Seq<TokV>>>,
    pub accounts: Seq<CompiledAccountV>,
}

impl View for CompiledContext {
    type V = CompiledContextV;

    open spec fn view(&self) -> CompiledContextV {
        CompiledContextV {
            name: self.name@,
            instruction: match self.instruction {
                Some(a) => Some(tok_lists_view(a@)),
                None => None,
            },
            accounts: self.accounts@.map_values(|a: CompiledAccount| a@),
        }
    }
}

/// The optional texts of a list, by their characters.
pub open spec fn opt_texts(v: Seq<Option<Vec<char>>>) -> Seq<Option<Seq<char>>> {
    v.map_values(
        |o: Option<Vec<char>>|
            match o {
                Some(t) => Some(t@),
                None => None,
            },
    )
}

/// The sort keys of the accounts: the text given for each, then its name.
pub open spec fn context_keys(accts: Seq<(Seq<char>, RealView)>, texts: Seq<Option<Seq<char>>>) -> Seq<SortKey> {
    Seq::new(accts.len(), |i: int| (texts[i], accts[i].0))
}

/// The accounts compiled in the given order, each with its seeds rewritten.
pub open spec fn compiled_accounts(accts: Seq<(Seq<char>, RealView)>, order: Seq<usize>) -> Seq<CompiledAccountV> {
    Seq::new(
        order.len(),
        |j: int| spec_compile_account(accts[order[j] as int].0, rewrite_account(accts[order[j] as int].1)),
    )
}

/// The seed constants of the accounts, taken in the given order.
pub open spec fn ordered_consts(accts: Seq<(Seq<char>, RealView)>, order: Seq<usize>) -> Seq<(Seq<char>, TokV)>
    decreases order.len(),
{
    if order.len() == 0 {
        seq![]
    } else {
        ordered_consts(accts, order.drop_last()) + account_consts(accts[order.last() as int].1)
    }
}

/// `r` is the context `c` compiled with its accounts sorted by the given texts and then by
/// name, and `found` grew from `before` by the constants of the accounts in that order.
pub open spec fn context_compiled(
    r: CompiledContextV,
    found: Seq<(Seq<char>, TokV)>,
    before: Seq<(Seq<char>, TokV)>,
    name: Seq<char>,
    c: BuiltContextV,
    texts: Seq<Option<Seq<char>>>,
) -> bool {
    exists|order: Seq<usize>|
        #![trigger compiled_accounts(c.accounts, order)]
        {
            &&& is_permutation(order, c.accounts.len())
            &&& sorted_by(context_keys(c.accounts, texts), order)
            &&& r == CompiledContextV {
                name,
                instruction: c.instruction,
                accounts: compiled_accounts(c.accounts, order),
            }
            &&& found == before + ordered_consts(c.accounts, order)
        }
}

fn copy_chars(v: &Vec<char>) -> (r: Vec<char>)
    ensures
        r@ == v@,
{
    let mut out: Vec<char> = Vec::new();
    let mut i: usize = 0;
    while i < v.len()
        invariant
            i <= v@.len(),
            out@ == v@.subrange(0, i as int),
        decreases v@.len() - i,
    {
        out.push(v[i]);
        i = i + 1;
    }
    out
}

/// Compiles a context whose accounts are ordered by the given texts (one per account, in
/// the order of `ctx.accounts`) and then by name.  The seed constants of its accounts are
/// appended to `found`.
pub fn compile_context_sorted(
    found: &mut Vec<(String, Tok)>,
    name: String,
    ctx: BuiltContext,
    texts: &Vec<Option<Vec<char>>>,
) -> (r: CompiledContext)
    requires
        ctx.wf(),
        all_typed(ctx@.accounts),
        texts@.len() == ctx@.accounts.len(),
    ensures
        context_compiled(r@, consts_view(final(found)@), consts_view(old(found)@), name@, ctx@, opt_texts(texts@)),
{
    let ghost cv = ctx@;
    let ghost accts = ctx@.accounts;
    let ghost tv = opt_texts(texts@);
    let BuiltContext { accounts, instruction } = ctx;
    let KeyedVec(entries) = accounts;
    let ghost ents = entries@;
    assert(accts.len() == ents.len());
    assert(forall|i: int| 0 <= i < ents.len() ==> #[trigger] accts[i] == (ents[i].0@, ents[i].1@));
    let n = entries.len();
    let mut keys: Vec<(Option<Vec<char>>, Vec<char>)> = Vec::new();
    let mut i: usize = 0;
    while i < n
        invariant
            n == entries@.len(),
            entries@ == ents,
            texts@.len() == n,
            tv == opt_texts(texts@),
            forall|q: int| 0 <= q < ents.len() ==> #[trigger] accts[q] == (ents[q].0@, ents[q].1@),
            accts.len() == n,
            tv.len() == n,
            i <= n,
            keys@.len() == i,
            forall|q: int| 0 <= q < i ==> key_view(#[trigger] keys@[q]) == context_keys(accts, tv)[q],
        decreases n - i,
    {
        let t = match &texts[i] {
            Some(v) => Some(copy_chars(v)),
            None => None,
        };
        let nm = chars_of(entries[i].0.as_str());
        keys.push((t, nm));
        proof {
            assert(accts[i as int] == (ents[i as int].0@, ents[i as int].1@));
            assert(tv[i as int] == match texts@[i as int] {
                Some(t) => Some(t@),
                None => None,
            });
            assert(key_view(keys@[i as int]) == context_keys(accts, tv)[i as int]);
        }
        i = i + 1;
    }
    let order = sort_order(&keys);
    proof {
        assert(keys@.map_values(|k: (Option<Vec<char>>, Vec<char>)| key_view(k)) =~= context_keys(accts, tv));
    }
    let mut sorted = permute(entries, &order);
    let ghost srt = sorted@;
    // Reverse, so that popping takes the accounts in sorted order.
    let mut rev: Vec<(String, BuiltAccount)> = Vec::new();
    while sorted.len() > 0
        invariant
            sorted@.len() + rev@.len() == n,
            srt.len() == n,
            forall|j: int| 0 <= j < sorted@.len() ==> sorted@[j] == srt[j],
            forall|j: int| 0 <= j < rev@.len() ==> #[trigger] rev@[j] == srt[n - 1 - j],
        decreases sorted@.len(),
    {
        let x = sorted.pop().unwrap();
        rev.push(x);
    }
    let mut out: Vec<CompiledAccount> = Vec::new();
    let mut k: usize = 0;
    while rev.len() > 0
        invariant
            k + rev@.len() == n,
            srt.len() == n,
            order@.len() == n,
            is_permutation(order@, n as nat),
            forall|j: int| 0 <= j < n ==> srt[j] == ents[#[trigger] order@[j] as int],
            forall|j: int| 0 <= j < rev@.len() ==> #[trigger] rev@[j] == srt[n - 1 - j],
            forall|q: int| 0 <= q < ents.len() ==> #[trigger] accts[q] == (ents[q].0@, ents[q].1@),
            forall|q: int| 0 <= q < ents.len() ==> (#[trigger] ents[q]).1.wf(),
            all_typed(accts),
            ents.len() == n,
            accts.len() == n,
            out@.len() == k,
            forall|j: int| 0 <= j < k ==> (#[trigger] out@[j])@ == compiled_accounts(accts, order@)[j],
            consts_view(found@) == consts_view(old(found)@) + ordered_consts(accts, order@.take(k as int)),
        decreases rev@.len(),
    {
        let (aname, acc) = rev.pop().unwrap();
        let ghost q = order@[k as int] as int;
        proof {
            assert(srt[k as int] == ents[q]);
            assert(accts[q] == (ents[q].0@, ents[q].1@));
            assert(accts[q].1[KIND_ACCOUNT_TYPE as int] is Some);
        }
        let mut acc = acc;
        proof {
            acc.0.lemma_wf();
        }
        extract_account_constants(found, &mut acc);
        proof {
            assert(order@.take(k + 1).drop_last() =~= order@.take(k as int));
            assert(order@.take(k + 1).last() == order@[k as int]);
        }
        out.push(compile_account(aname, acc));
        k = k + 1;
    }
    proof {
        assert(order@.take(n as int) =~= order@);
        assert(out@.map_values(|a: CompiledAccount| a@) =~= compiled_accounts(accts, order@));
    }
    let r = CompiledContext { name, instruction, accounts: out };
    assert(context_compiled(r@, consts_view(found@), consts_view(old(found)@), name@, cv, tv)) by {
        assert(compiled_accounts(cv.accounts, order@) == compiled_accounts(accts, order@));
    }
    r
}

/// An account has a text to be ordered by: it has a type whose text `syn` reads as a path
/// (a text that may hold a C string literal is not read).
pub open spec fn sort_text_found(v: RealView) -> bool {
    v[KIND_ACCOUNT_TYPE as int] matches Some(p) && !has_c_literal(toks_text(value_toks(p.value))) && path_accepted(
        toks_text(value_toks(p.value)),
    )
}

/// The text by which an account is ordered: the `Debug` form of its type path, as `syn`
/// writes it (see `path_debug`).  There is one exactly when the account has a type whose
/// text `syn` reads as a path; the form itself holds spans and is not stated.
fn type_sort_text(acc: &BuiltAccount) -> (r: Option<Vec<char>>)
    requires
        acc.wf(),
    ensures
        r is Some <==> sort_text_found(acc@),
{
    match acc.0.get::<AccountType>() {
        Some(p) => {
            let toks = value_tokens(&p.value);
            let text = tokens_text(toks.as_slice());
            let s = string_of(text.as_slice());
            if holds_c_literal(s.as_str()) {
                return None;
            }
            match path_debug(s.as_str()) {
                Some(d) => Some(chars_of(d.as_str())),
                None => None,
            }
        },
        None => None,
    }
}

/// The context `c` compiled, ordered by some texts, one per account.
pub open spec fn context_compiled_some(
    r: CompiledContextV,
    found: Seq<(Seq<char>, TokV)>,
    before: Seq<(Seq<char>, TokV)>,
    name: Seq<char>,
    c: BuiltContextV,
) -> bool {
    exists|texts: Seq<Option<Seq<char>>>|
        #![trigger context_keys(c.accounts, texts)]
        texts.len() == c.accounts.len() && context_compiled(r, found, before, name, c, texts)
            && forall|i: int| 0 <= i < texts.len() ==> ((#[trigger] texts[i]) is Some <==> sort_text_found(c.accounts[i].1))
}

/// Compiles one context: its accounts are ordered by the `Debug` form of their type and then
/// by name, and the constants of their seeds are appended to `found`.  That form holds the
/// spans of the type's tokens, so the order by type is stated for some texts, one per
/// account; `compile_context_sorted` states the rest for each.
pub fn compile_context(found: &mut Vec<(String, Tok)>, name: String, ctx: BuiltContext) -> (r: CompiledContext)
    requires
        ctx.wf(),
        all_typed(ctx@.accounts),
    ensures
        context_compiled_some(r@, consts_view(final(found)@), consts_view(old(found)@), name@, ctx@),
{
    let mut texts: Vec<Option<Vec<char>>> = Vec::new();
    let mut i: usize = 0;
    while i < ctx.accounts.0.len()
        invariant
            ctx.wf(),
            i <= ctx.accounts.0@.len(),
            texts@.len() == i,
            forall|j: int| 0 <= j < i ==> ((#[trigger] texts@[j]) is Some <==> sort_text_found(ctx.accounts.0@[j].1@)),
        decreases ctx.accounts.0@.len() - i,
    {
        texts.push(type_sort_text(&ctx.accounts.0[i].1));
        i = i + 1;
    }
    assert(forall|j: int| 0 <= j < texts@.len() ==> ((#[trigger] opt_texts(texts@)[j]) is Some <==> sort_text_found(ctx@.accounts[j].1))) by {
        assert forall|j: int| 0 <= j < texts@.len() implies ((#[trigger] opt_texts(texts@)[j]) is Some <==> sort_text_found(ctx@.accounts[j].1)) by {
            assert(ctx@.accounts[j].1 == ctx.accounts.0@[j].1@);
            assert(texts@[j] is Some <==> sort_text_found(ctx.accounts.0@[j].1@));
        }
    }
    let ghost cv = ctx@;
    let r = compile_context_sorted(found, name, ctx, &texts);
    assert(context_keys(cv.accounts, opt_texts(texts@)) == context_keys(cv.accounts, opt_texts(texts@)));
    r
}

/// The value last given to the name `n`, if any.
pub open spec fn last_with(found: Seq<(Seq<char>, TokV)>, n: Seq<char>) -> Option<TokV>
    decreases found.len(),
{
    if found.len() == 0 {
        None
    } else if found.last().0 == n {
        Some(found.last().1)
    } else {
        last_with(found.drop_last(), n)
    }
}

/// `out` holds each name of `found` once, in increasing order, with the value last given to
/// it.
pub open spec fn merged_consts(found: Seq<(Seq<char>, TokV)>, out: Seq<(Seq<char>, TokV)>) -> bool {
    &&& forall|i: int, j: int| 0 <= i < j < out.len() ==> seq_lt(#[trigger] out[i].0, #[trigger] out[j].0)
    &&& forall|i: int| 0 <= i < out.len() ==> last_with(found, (#[trigger] out[i]).0) == Some(out[i].1)
    &&& forall|n: Seq<char>|
        #[trigger] last_with(found, n) is Some ==> exists|i: int| 0 <= i < out.len() && (#[trigger] out[i]).0 == n
}

/// The constants of a document: each name once, in order of names, with the literal that
/// was given to it last.
pub fn merge_constants(found: &Vec<(String, Tok)>) -> (r: Vec<(String, Tok)>)
    ensures
        merged_consts(consts_view(found@), consts_view(r@)),
{
    let ghost fv = consts_view(found@);
    let mut out: Vec<(String, Tok)> = Vec::new();
    let mut i: usize = 0;
    while i < found.len()
        invariant
            i <= found@.len(),
            fv == consts_view(found@),
            merged_consts(fv.take(i as int), consts_view(out@)),
        decreases found@.len() - i,
    {
        let ghost ov = consts_view(out@);
        let ghost pre = fv.take(i as int);
        let ghost post = fv.take(i + 1);
        let name = chars_of(found[i].0.as_str());
        let ghost nm = fv[i as int].0;
        assert(name@ == nm);
        // The first position whose name is not before `name`.
        let mut p: usize = 0;
        while p < out.len() && chars_lt(chars_of(out[p].0.as_str()).as_slice(), name.as_slice())
            invariant
                p <= out@.len(),
                ov == consts_view(out@),
                name@ == nm,
                forall|q: int| 0 <= q < p ==> seq_lt(#[trigger] ov[q].0, nm),
            decreases out@.len() - p,
        {
            assert(ov[p as int].0 == out@[p as int].0@);
            p = p + 1;
        }
        proof {
            assert(post.drop_last() =~= pre);
            assert(post.last() == fv[i as int]);
            assert forall|m: Seq<char>| m != nm implies #[trigger] last_with(post, m) == last_with(pre, m) by {
            }
            assert(last_with(post, nm) == Some(fv[i as int].1));
        }
        let entry = (found[i].0.clone(), found[i].1.dup());
        if p < out.len() && str_eq(out[p].0.as_str(), found[i].0.as_str()) {
            out.set(p, entry);
            proof {
                let nv = consts_view(out@);
                assert(nv =~= ov.update(p as int, (nm, fv[i as int].1)));
                assert forall|a: int, b: int| 0 <= a < b < nv.len() implies seq_lt(#[trigger] nv[a].0, #[trigger] nv[b].0) by {
                    assert(ov[a].0 == nv[a].0 && ov[b].0 == nv[b].0);
                }
                assert forall|a: int| 0 <= a < nv.len() implies last_with(post, (#[trigger] nv[a]).0) == Some(nv[a].1) by {
                    if a != p {
                        assert(nv[a] == ov[a]);
                        assert(ov[a].0 != nm) by {
                            if ov[a].0 == nm {
                                if a < p {
                                    crate::order::lemma_seq_lt_irreflexive(nm);
                                    assert(seq_lt(ov[a].0, ov[p as int].0));
                                } else {
                                    crate::order::lemma_seq_lt_irreflexive(nm);
                                    assert(seq_lt(ov[p as int].0, ov[a].0));
                                }
                            }
                        }
                    }
                }
                assert forall|m: Seq<char>| #[trigger] last_with(post, m) is Some implies exists|a: int|
                    0 <= a < nv.len() && (#[trigger] nv[a]).0 == m by {
                    if m == nm {
                        assert(nv[p as int].0 == m);
                    } else {
                        let a = choose|a: int| 0 <= a < ov.len() && (#[trigger] ov[a]).0 == m;
                        assert(nv[a].0 == m);
                    }
                }
            }
        } else {
            proof {
                if p < out@.len() {
                    assert(ov[p as int].0 != nm);
                    assert(!seq_lt(ov[p as int].0, nm));
                    crate::order::lemma_seq_lt_total(ov[p as int].0, nm);
                    assert(seq_lt(nm, ov[p as int].0));
                }
            }
            out.insert(p, entry);
            proof {
                let nv = consts_view(out@);
                assert(nv =~= ov.insert(p as int, (nm, fv[i as int].1)));
                assert forall|a: int, b: int| 0 <= a < b < nv.len() implies seq_lt(#[trigger] nv[a].0, #[trigger] nv[b].0) by {
                    if a < p && b == p {
                    } else if a == p && b > p {
                        assert(nv[b] == ov[b - 1]);
                        if b - 1 > p {
                            assert(seq_lt(ov[p as int].0, ov[b - 1].0));
                            crate::order::lemma_seq_lt_transitive(nm, ov[p as int].0, ov[b - 1].0);
                        }
                    } else if a < p && b < p {
                        assert(nv[a] == ov[a] && nv[b] == ov[b]);
                    } else if a < p && b > p {
                        assert(nv[a] == ov[a] && nv[b] == ov[b - 1]);
                    } else {
                        assert(nv[a] == ov[a - 1] && nv[b] == ov[b - 1]);
                    }
                }
                assert forall|a: int| 0 <= a < nv.len() implies last_with(post, (#[trigger] nv[a]).0) == Some(nv[a].1) by {
                    if a != p {
                        let oa: int = if a < p { a } else { a - 1 };
                        assert(nv[a] == ov[oa]);
                        assert(ov[oa].0 != nm) by {
                            if ov[oa].0 == nm {
                                if oa < p {
                                    crate::order::lemma_seq_lt_irreflexive(nm);
                                } else {
                                    crate::order::lemma_seq_lt_irreflexive(nm);
                                    if oa > p {
                                        assert(seq_lt(ov[p as int].0, ov[oa].0));
                                        crate::order::lemma_seq_lt_transitive(nm, ov[p as int].0, ov[oa].0);
                                    }
                                }
                            }
                        }
                    }
                }
                assert forall|m: Seq<char>| #[trigger] last_with(post, m) is Some implies exists|a: int|
                    0 <= a < nv.len() && (#[trigger] nv[a]).0 == m by {
                    if m == nm {
                        assert(nv[p as int].0 == m);
                    } else {
                        let a = choose|a: int| 0 <= a < ov.len() && (#[trigger] ov[a]).0 == m;
                        if a < p {
                            assert(nv[a].0 == m);
                        } else {
                            assert(nv[a + 1].0 == m);
                        }
                    }
                }
            }
        }
        i = i + 1;
    }
    assert(fv.take(found@.len() as int) =~= fv);
    out
}

/// A compiled document: its constants, then its contexts in order.
pub struct CompiledDoc {
    pub constants: Vec<(String, Tok)>,
    pub contexts: Vec<CompiledContext>,
}

/// `found` lists the constants found before each context and after the last, and each
/// compiled context is its built context compiled from one list to the next.
pub open spec fn doc_steps(
    found: Seq<Seq<(Seq<char>, TokV)>>,
    compiled: Seq<CompiledContextV>,
    built: Seq<(Seq<char>, BuiltContextV)>,
) -> bool {
    &&& found.len() == built.len() + 1
    &&& found[0] == Seq::<(Seq<char>, TokV)>::empty()
    &&& compiled.len() == built.len()
    &&& forall|i: int|
        0 <= i < built.len() ==> context_compiled_some(
            #[trigger] compiled[i],
            found[i + 1],
            found[i],
            built[i].0,
            built[i].1,
        )
}

/// The document compiled: every context in order, with the constants of all their seeds
/// merged (see `merged_consts`).
pub open spec fn doc_compiled(
    compiled: Seq<CompiledContextV>,
    constants: Seq<(Seq<char>, TokV)>,
    built: Seq<(Seq<char>, BuiltContextV)>,
) -> bool {
    exists|found: Seq<Seq<(Seq<char>, TokV)>>|
        #[trigger] doc_steps(found, compiled, built) && merged_consts(found.last(), constants)
}

/// Every context is well formed and all its accounts have a type.
pub open spec fn contexts_ready(v: Seq<(String, BuiltContext)>) -> bool {
    forall|i: int| 0 <= i < v.len() ==> (#[trigger] v[i]).1.wf() && all_typed(v[i].1@.accounts)
}

/// Compiles the built contexts of a document (see `doc_compiled`).
pub fn compile(contexts: BuiltContexts) -> (r: CompiledDoc)
    requires
        contexts_ready(contexts.0.0@),
    ensures
        doc_compiled(r.contexts@.map_values(|c: CompiledContext| c@), consts_view(r.constants@), contexts.0@),
{
    let ghost built = contexts.0@;
    let ghost ents = contexts.0.0@;
    let BuiltContexts(KeyedVec(mut entries)) = contexts;
    let n = entries.len();
    let mut rev: Vec<(String, BuiltContext)> = Vec::new();
    while entries.len() > 0
        invariant
            entries@.len() + rev@.len() == n,
            ents.len() == n,
            forall|j: int| 0 <= j < entries@.len() ==> entries@[j] == ents[j],
            forall|j: int| 0 <= j < rev@.len() ==> #[trigger] rev@[j] == ents[n - 1 - j],
        decreases entries@.len(),
    {
        let x = entries.pop().unwrap();
        rev.push(x);
    }
    let mut found: Vec<(String, Tok)> = Vec::new();
    let mut out: Vec<CompiledContext> = Vec::new();
    let ghost mut fs: Seq<Seq<(Seq<char>, TokV)>> = seq![seq![]];
    let mut k: usize = 0;
    while rev.len() > 0
        invariant
            k + rev@.len() == n,
            ents.len() == n,
            built.len() == n,
            forall|q: int| 0 <= q < n ==> #[trigger] built[q] == (ents[q].0@, ents[q].1@),
            contexts_ready(ents),
            forall|j: int| 0 <= j < rev@.len() ==> #[trigger] rev@[j] == ents[n - 1 - j],
            out@.len() == k,
            fs.len() == k + 1,
            fs[0] == Seq::<(Seq<char>, TokV)>::empty(),
            fs[k as int] == consts_view(found@),
            forall|i: int|
                0 <= i < k ==> context_compiled_some(
                    (#[trigger] out@[i])@,
                    fs[i + 1],
                    fs[i],
                    built[i].0,
                    built[i].1,
                ),
        decreases rev@.len(),
    {
        let (name, ctx) = rev.pop().unwrap();
        proof {
            assert(ents[k as int] == (name, ctx));
            assert(built[k as int] == (name@, ctx@));
        }
        let c = compile_context(&mut found, name, ctx);
        out.push(c);
        proof {
            fs = fs.push(consts_view(found@));
        }
        k = k + 1;
    }
    let constants = merge_constants(&found);
    let r = CompiledDoc { constants, contexts: out };
    proof {
        let cv = out@.map_values(|c: CompiledContext| c@);
        assert(doc_steps(fs, cv, built));
        assert(fs.last() == consts_view(found@));
    }
    r
}

} // verus!
