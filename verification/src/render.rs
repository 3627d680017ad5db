//! Turning built accounts into the pieces of Anchor account structs: the field type, the
//! `#[account(..)]` arguments, the `CHECK` doc line, and the type in the wrapper struct.

use crate::builder::empty_slots;
use crate::propsets::{
    DynStruct, NUM_KINDS, PropItem, KIND_ACCOUNT_TYPE, KIND_ASSOCIATED_TOKEN_AUTHORITY,
    KIND_ASSOCIATED_TOKEN_MINT, KIND_ASSOCIATED_TOKEN_PROGRAM, KIND_BOXED, KIND_CHECK, KIND_CONSTRAINTS,
    KIND_INIT_IF_NEEDED, KIND_MINT_AUTHORITY, KIND_MINT_DECIMALS, KIND_MINT_TOKEN_PROGRAM, KIND_MUT,
    KIND_REAL_INIT, KIND_SEEDS, KIND_SPACE, KIND_TOKEN_AUTHORITY, KIND_TOKEN_MINT, KIND_TOKEN_PROGRAM,
    KIND_TRANSFER_HOOK_AUTHORITY, KIND_TRANSFER_HOOK_PROGRAM_ID, KIND_ZERO_COPY,
};
use crate::syntax::{
    byte_str_value, byte_str_value_of, has_c_literal, holds_c_literal, lit_str_value, lit_str_value_of, opt_chars, string_from_utf8, to_uppercase,
    uppercase_of,
};
use crate::text::{chars_of, decimal, push_all, push_decimal, push_str, string_of};
use crate::token::{Delim, Tok, TokV, dup_toks, toks_view, tok_lists_view, toks_text};
use crate::types::{
    AccountType, Boxed, BuiltAccount, Check, Constraints, InitIfNeeded, LabelledProp, LabelledPropV, Mut,
    PropValue, PropValueV, RealAccountProps, RealInit, RealView, Seeds, Space, ZeroCopy,
    AssociatedTokenAuthority, AssociatedTokenMint, AssociatedTokenProgram, MintAuthority, MintDecimals,
    MintTokenProgram, TokenAuthority, TokenMint, TokenProgram, TransferHookAuthority,
    TransferHookProgramId, flag_of, prop_flag, slot_flag, spec_is_ro, spec_is_token_2022,
};
use vstd::prelude::*;
use vstd::utf8::{decode_utf8, valid_utf8};

verus! {

/// The tokens of a value written as one expression (a list is written as an array).
pub open spec fn value_toks(v: PropValueV) -> Seq<TokV> {
    match v {
        PropValueV::Expr(t) => t,
        PropValueV::Flag(b) => seq![TokV::Ident(if b { "true"@ } else { "false"@ })],
        PropValueV::Exprs(e) => array_toks(e),
        PropValueV::Unit => seq![],
    }
}

/// The items separated by commas.
pub open spec fn comma_list(e: Seq<Seq<TokV>>) -> Seq<TokV>
    decreases e.len(),
{
    if e.len() == 0 {
        seq![]
    } else if e.len() == 1 {
        e[0]
    } else {
        comma_list(e.drop_last()) + seq![TokV::Punct(',', false)] + e.last()
    }
}

/// The items as an array expression `[a, b, ..]`.
pub open spec fn array_toks(e: Seq<Seq<TokV>>) -> Seq<TokV> {
    seq![TokV::Open(Delim::Bracket)] + comma_list(e) + seq![TokV::Close(Delim::Bracket)]
}

/// `name<'info, ty>`.
pub open spec fn info_generic(name: Seq<char>, ty: Seq<TokV>) -> Seq<TokV> {
    seq![
        TokV::Ident(name),
        TokV::Punct('<', false),
        TokV::Punct('\'', true),
        TokV::Ident("info"@),
        TokV::Punct(',', false),
    ] + ty + seq![TokV::Punct('>', false)]
}

/// `name<ty>`.
pub open spec fn generic(name: Seq<char>, ty: Seq<TokV>) -> Seq<TokV> {
    seq![TokV::Ident(name), TokV::Punct('<', false)] + ty + seq![TokV::Punct('>', false)]
}

/// A path of one segment with no generic arguments (`Mint`, `::Mint`).
pub open spec fn is_plain_name(ty: Seq<TokV>) -> bool {
    ||| ty.len() == 1 && ty[0] is Ident
    ||| ty.len() == 3 && ty[0] == TokV::Punct(':', true) && (ty[1] matches TokV::Punct(':', _)) && ty[2] is Ident
}

/// The tokens of the property in slot `k`, if present.
pub open spec fn slot_toks(v: RealView, k: int) -> Seq<TokV> {
    match v[k] {
        Some(p) => value_toks(p.value),
        None => seq![],
    }
}

/// The field type of an account: a plain account type is wrapped in `Account<'info, _>`,
/// or `AccountLoader` when it is zero-copy, or `InterfaceAccount` when it uses the 2022
/// token program; any other type stays as written.  `boxed: true` puts it in a `Box`.
pub open spec fn spec_compile_type(v: RealView) -> Seq<TokV> {
    let ty = slot_toks(v, KIND_ACCOUNT_TYPE as int);
    let zero_copy = slot_flag(v, KIND_ZERO_COPY as int);
    let t2022 = spec_is_token_2022(v);
    let o = if is_plain_name(ty) && !zero_copy && !t2022 {
        info_generic("Account"@, ty)
    } else if is_plain_name(ty) && zero_copy {
        info_generic("AccountLoader"@, ty)
    } else if is_plain_name(ty) && t2022 {
        info_generic("InterfaceAccount"@, ty)
    } else {
        ty
    };
    if slot_flag(v, KIND_BOXED as int) {
        generic("Box"@, o)
    } else {
        o
    }
}

/// The set without the properties of the given slots.
pub open spec fn without(v: RealView, ks: Seq<int>) -> RealView {
    Seq::new(v.len(), |k: int| if ks.contains(k) { None } else { v[k] })
}

fn ident(s: &str) -> (r: Tok)
    ensures
        r@ == TokV::Ident(s@),
{
    Tok::Ident(s.to_owned())
}

fn push_toks(out: &mut Vec<Tok>, t: &[Tok])
    ensures
        toks_view(final(out)@) == toks_view(old(out)@) + toks_view(t@),
{
    let mut i: usize = 0;
    while i < t.len()
        invariant
            i <= t@.len(),
            toks_view(out@) == toks_view(old(out)@) + toks_view(t@.subrange(0, i as int)),
        decreases t@.len() - i,
    {
        let ghost pre = toks_view(out@);
        out.push(t[i].dup());
        assert(toks_view(out@) =~= pre.push(t@[i as int]@));
        assert(toks_view(t@.subrange(0, i + 1)) =~= toks_view(t@.subrange(0, i as int)).push(t@[i as int]@));
        i = i + 1;
    }
    assert(t@.subrange(0, t@.len() as int) == t@);
}

fn info_generic_exec(name: &str, ty: &[Tok]) -> (r: Vec<Tok>)
    ensures
        toks_view(r@) == info_generic(name@, toks_view(ty@)),
{
    let mut out = vec![ident(name), Tok::Punct('<', false), Tok::Punct('\'', true), ident("info"), Tok::Punct(',', false)];
    assert(toks_view(out@) =~= seq![
        TokV::Ident(name@),
        TokV::Punct('<', false),
        TokV::Punct('\'', true),
        TokV::Ident("info"@),
        TokV::Punct(',', false),
    ]);
    push_toks(&mut out, ty);
    let ghost mid = toks_view(out@);
    out.push(Tok::Punct('>', false));
    assert(toks_view(out@) =~= mid.push(TokV::Punct('>', false)));
    assert(toks_view(out@) =~= info_generic(name@, toks_view(ty@)));
    out
}

fn generic_exec(name: &str, ty: &[Tok]) -> (r: Vec<Tok>)
    ensures
        toks_view(r@) == generic(name@, toks_view(ty@)),
{
    let mut out = vec![ident(name), Tok::Punct('<', false)];
    assert(toks_view(out@) =~= seq![TokV::Ident(name@), TokV::Punct('<', false)]);
    push_toks(&mut out, ty);
    let ghost mid = toks_view(out@);
    out.push(Tok::Punct('>', false));
    assert(toks_view(out@) =~= mid.push(TokV::Punct('>', false)));
    assert(toks_view(out@) =~= generic(name@, toks_view(ty@)));
    out
}

fn comma_list_exec(e: &Vec<Vec<Tok>>) -> (r: Vec<Tok>)
    ensures
        toks_view(r@) == comma_list(tok_lists_view(e@)),
{
    let ghost ev = tok_lists_view(e@);
    let mut out: Vec<Tok> = Vec::new();
    let mut i: usize = 0;
    while i < e.len()
        invariant
            i <= e@.len(),
            ev == tok_lists_view(e@),
            toks_view(out@) == comma_list(ev.subrange(0, i as int)),
        decreases e@.len() - i,
    {
        let ghost pre = ev.subrange(0, i as int);
        let ghost next = ev.subrange(0, i + 1);
        assert(next.drop_last() =~= pre);
        assert(next.last() == toks_view(e@[i as int]@));
        if i > 0 {
            out.push(Tok::Punct(',', false));
        } else {
            assert(toks_view(out@) =~= seq![]);
        }
        push_toks(&mut out, e[i].as_slice());
        proof {
            if i == 0 {
                assert(toks_view(out@) =~= next[0]);
            }
        }
        i = i + 1;
    }
    assert(ev.subrange(0, e@.len() as int) =~= ev);
    out
}

fn array_exec(e: &Vec<Vec<Tok>>) -> (r: Vec<Tok>)
    ensures
        toks_view(r@) == array_toks(tok_lists_view(e@)),
{
    let mut out = vec![Tok::Open(Delim::Bracket)];
    assert(toks_view(out@) =~= seq![TokV::Open(Delim::Bracket)]);
    let inner = comma_list_exec(e);
    push_toks(&mut out, inner.as_slice());
    let ghost mid = toks_view(out@);
    out.push(Tok::Close(Delim::Bracket));
    assert(toks_view(out@) =~= mid.push(TokV::Close(Delim::Bracket)));
    assert(toks_view(out@) =~= array_toks(tok_lists_view(e@)));
    out
}

/// The tokens of a value written as one expression.
pub fn value_tokens(v: &PropValue) -> (r: Vec<Tok>)
    ensures
        toks_view(r@) == value_toks(v@),
{
    match v {
        PropValue::Expr(t) => dup_toks(t.as_slice()),
        PropValue::Flag(b) => {
            let r = vec![ident(if *b { "true" } else { "false" })];
            assert(toks_view(r@) =~= value_toks(v@));
            r
        },
        PropValue::Exprs(e) => array_exec(e),
        PropValue::Unit => {
            let r: Vec<Tok> = Vec::new();
            assert(toks_view(r@) =~= value_toks(v@));
            r
        },
    }
}

fn is_plain_name_exec(ty: &[Tok]) -> (r: bool)
    ensures
        r == is_plain_name(toks_view(ty@)),
{
    let ghost tv = toks_view(ty@);
    if ty.len() == 1 {
        assert(tv[0] == ty@[0]@);
        matches!(ty[0], Tok::Ident(_))
    } else if ty.len() == 3 {
        assert(tv[0] == ty@[0]@);
        assert(tv[1] == ty@[1]@);
        assert(tv[2] == ty@[2]@);
        matches!(ty[0], Tok::Punct(':', true)) && matches!(ty[1], Tok::Punct(':', _)) && matches!(ty[2], Tok::Ident(_))
    } else {
        false
    }
}

/// Takes the type, zero-copy and boxing properties out of the account and gives its field
/// type (see `spec_compile_type`).
pub fn compile_type(props: &mut BuiltAccount) -> (r: Vec<Tok>)
    requires
        old(props).wf(),
        old(props)@[KIND_ACCOUNT_TYPE as int] is Some,
    ensures
        final(props).wf(),
        toks_view(r@) == spec_compile_type(old(props)@),
        final(props)@ == without(
            old(props)@,
            seq![KIND_ACCOUNT_TYPE as int, KIND_ZERO_COPY as int, KIND_BOXED as int],
        ),
{
    proof {
        props.0.lemma_wf();
    }
    let ghost v = props@;
    let t = props.0.remove::<AccountType>();
    let is_zero_copy = prop_flag::<ZeroCopy>(&props.0);
    let _ = props.0.remove::<ZeroCopy>();
    let t2022 = props.is_token_2022();
    let ty: Vec<Tok> = match &t {
        Some(p) => value_tokens(&p.value),
        None => Vec::new(),
    };
    assert(toks_view(ty@) == slot_toks(v, KIND_ACCOUNT_TYPE as int));
    let is_struct = is_plain_name_exec(ty.as_slice());
    let mut o = if is_struct && !is_zero_copy && !t2022 {
        info_generic_exec("Account", ty.as_slice())
    } else if is_struct && is_zero_copy {
        info_generic_exec("AccountLoader", ty.as_slice())
    } else if is_struct && t2022 {
        info_generic_exec("InterfaceAccount", ty.as_slice())
    } else {
        ty
    };
    let boxed = prop_flag::<Boxed>(&props.0);
    let _ = props.0.remove::<Boxed>();
    if boxed {
        o = generic_exec("Box", o.as_slice());
    }
    assert(props@ =~= without(v, seq![KIND_ACCOUNT_TYPE as int, KIND_ZERO_COPY as int, KIND_BOXED as int]));
    o
}

/// `payer = payer`.
pub open spec fn payer_meta() -> Seq<TokV> {
    seq![TokV::Ident("payer"@), TokV::Punct('=', false), TokV::Ident("payer"@)]
}

/// The label alone, for a present property.
pub open spec fn label_meta(v: RealView, k: int) -> Seq<Seq<TokV>> {
    match v[k] {
        Some(p) => seq![p.label.path],
        None => seq![],
    }
}

/// `label = value`, for a present property.
pub open spec fn kv_meta(v: RealView, k: int) -> Seq<Seq<TokV>> {
    match v[k] {
        Some(p) => seq![p.label.path + seq![TokV::Punct('=', false)] + value_toks(p.value)],
        None => seq![],
    }
}

/// The label and `payer = payer`, for a present property.
pub open spec fn init_meta(v: RealView, k: int) -> Seq<Seq<TokV>> {
    match v[k] {
        Some(p) => seq![p.label.path, payer_meta()],
        None => seq![],
    }
}

/// The label and `payer = payer`, for a present property whose value is the literal `true`
/// (`init_if_needed: true`); nothing for `false`.
pub open spec fn flag_init_meta(v: RealView, k: int) -> Seq<Seq<TokV>> {
    match v[k] {
        Some(p) => if flag_of(p.value) {
            seq![p.label.path, payer_meta()]
        } else {
            seq![]
        },
        None => seq![],
    }
}

/// `seeds = [..]` and `bump`, when the account has seeds.
pub open spec fn seeds_meta(v: RealView) -> Seq<Seq<TokV>> {
    match v[KIND_SEEDS as int] {
        Some(p) => seq![
            p.label.path + seq![TokV::Punct('=', false)] + value_toks(p.value),
            seq![TokV::Ident("bump"@)],
        ],
        None => seq![],
    }
}

/// The items of a list value (a single expression counts as one item).
pub open spec fn value_items(v: PropValueV) -> Seq<Seq<TokV>> {
    match v {
        PropValueV::Exprs(e) => e,
        PropValueV::Expr(t) => seq![t],
        _ => seq![],
    }
}

/// `constraint = c` for each constraint.
pub open spec fn constraint_metas(v: RealView) -> Seq<Seq<TokV>> {
    match v[KIND_CONSTRAINTS as int] {
        Some(p) => value_items(p.value).map_values(
            |c: Seq<TokV>| seq![TokV::Ident("constraint"@), TokV::Punct('=', false)] + c,
        ),
        None => seq![],
    }
}

/// The arguments of `#[account(..)]`, in order: `init` and `payer = payer`,
/// `init_if_needed` and `payer = payer`, `seeds = [..]` and `bump`, `space = ..`, `mut`,
/// the `token::`, `associated_token::`, `mint::` and `extensions::` properties, then one
/// `constraint = ..` per constraint.
pub open spec fn spec_metas(v: RealView) -> Seq<Seq<TokV>> {
    init_meta(v, KIND_REAL_INIT as int) + flag_init_meta(v, KIND_INIT_IF_NEEDED as int) + seeds_meta(v)
        + kv_meta(v, KIND_SPACE as int) + label_meta(v, KIND_MUT as int) + kv_meta(v, KIND_TOKEN_MINT as int)
        + kv_meta(v, KIND_TOKEN_AUTHORITY as int) + kv_meta(v, KIND_TOKEN_PROGRAM as int) + kv_meta(
        v,
        KIND_ASSOCIATED_TOKEN_MINT as int,
    ) + kv_meta(v, KIND_ASSOCIATED_TOKEN_AUTHORITY as int) + kv_meta(v, KIND_ASSOCIATED_TOKEN_PROGRAM as int)
        + kv_meta(v, KIND_MINT_AUTHORITY as int) + kv_meta(v, KIND_MINT_DECIMALS as int) + kv_meta(
        v,
        KIND_MINT_TOKEN_PROGRAM as int,
    ) + kv_meta(v, KIND_TRANSFER_HOOK_AUTHORITY as int) + kv_meta(v, KIND_TRANSFER_HOOK_PROGRAM_ID as int)
        + constraint_metas(v)
}

/// The slots whose properties become `#[account(..)]` arguments.
pub open spec fn meta_slots() -> Seq<int> {
    seq![
        KIND_REAL_INIT as int,
        KIND_INIT_IF_NEEDED as int,
        KIND_SEEDS as int,
        KIND_SPACE as int,
        KIND_MUT as int,
        KIND_TOKEN_MINT as int,
        KIND_TOKEN_AUTHORITY as int,
        KIND_TOKEN_PROGRAM as int,
        KIND_ASSOCIATED_TOKEN_MINT as int,
        KIND_ASSOCIATED_TOKEN_AUTHORITY as int,
        KIND_ASSOCIATED_TOKEN_PROGRAM as int,
        KIND_MINT_AUTHORITY as int,
        KIND_MINT_DECIMALS as int,
        KIND_MINT_TOKEN_PROGRAM as int,
        KIND_TRANSFER_HOOK_AUTHORITY as int,
        KIND_TRANSFER_HOOK_PROGRAM_ID as int,
        KIND_CONSTRAINTS as int,
    ]
}

/// The metas of a prefix of the slots: the remaining slots are untouched.
proof fn lemma_without_step(v: RealView, ks: Seq<int>, k: int)
    requires
        v.len() == NUM_KINDS,
    ensures
        without(without(v, ks), seq![k]) == without(v, ks.push(k)),
{
    assert forall|j: int| #[trigger] ks.push(k).contains(j) <==> ks.contains(j) || j == k by {
        if ks.push(k).contains(j) {
            let w = choose|w: int| 0 <= w < ks.push(k).len() && ks.push(k)[w] == j;
            if w < ks.len() {
                assert(ks[w] == j);
            }
        }
        if ks.contains(j) {
            let w = choose|w: int| 0 <= w < ks.len() && ks[w] == j;
            assert(ks.push(k)[w] == j);
        }
        if j == k {
            assert(ks.push(k)[ks.len() as int] == j);
        }
    }
    assert forall|j: int| #[trigger] seq![k].contains(j) <==> j == k by {
        if j == k {
            assert(seq![k][0] == j);
        }
    }
    assert(without(without(v, ks), seq![k]) =~= without(v, ks.push(k)));
}

/// Pushes the label of the property of kind `P`, taking it out.
fn take_label<P: crate::propsets::PropOf<RealAccountProps>>(
    props: &mut DynStruct<RealAccountProps>,
    metas: &mut Vec<Vec<Tok>>,
) -> (r: bool)
    requires
        old(props).wf(),
    ensures
        final(props).wf(),
        final(props)@ == old(props)@.update(P::spec_kind() as int, None),
        tok_lists_view(final(metas)@) == tok_lists_view(old(metas)@) + label_meta(old(props)@, P::spec_kind() as int),
        r == old(props)@[P::spec_kind() as int] is Some,
{
    proof {
        props.lemma_wf();
    }
    let ghost pre = tok_lists_view(metas@);
    match props.remove::<P>() {
        Some(p) => {
            metas.push(dup_toks(p.label.path.as_slice()));
            assert(tok_lists_view(metas@) =~= pre + label_meta(old(props)@, P::spec_kind() as int));
            true
        },
        None => {
            assert(tok_lists_view(metas@) =~= pre + label_meta(old(props)@, P::spec_kind() as int));
            false
        },
    }
}

fn kv_tokens(p: &LabelledProp) -> (r: Vec<Tok>)
    ensures
        toks_view(r@) == p@.label.path + seq![TokV::Punct('=', false)] + value_toks(p@.value),
{
    let mut m = dup_toks(p.label.path.as_slice());
    let ghost a = toks_view(m@);
    m.push(Tok::Punct('=', false));
    assert(toks_view(m@) =~= a + seq![TokV::Punct('=', false)]);
    let v = value_tokens(&p.value);
    push_toks(&mut m, v.as_slice());
    m
}

/// Pushes `label = value` for the property of kind `P`, taking it out.
fn take_kv<P: crate::propsets::PropOf<RealAccountProps>>(
    props: &mut DynStruct<RealAccountProps>,
    metas: &mut Vec<Vec<Tok>>,
)
    requires
        old(props).wf(),
    ensures
        final(props).wf(),
        final(props)@ == old(props)@.update(P::spec_kind() as int, None),
        tok_lists_view(final(metas)@) == tok_lists_view(old(metas)@) + kv_meta(old(props)@, P::spec_kind() as int),
{
    let ghost pre = tok_lists_view(metas@);
    match props.remove::<P>() {
        Some(p) => {
            metas.push(kv_tokens(&p));
            assert(tok_lists_view(metas@) =~= pre + kv_meta(old(props)@, P::spec_kind() as int));
        },
        None => {
            assert(tok_lists_view(metas@) =~= pre + kv_meta(old(props)@, P::spec_kind() as int));
        },
    }
}

fn payer_tokens() -> (r: Vec<Tok>)
    ensures
        toks_view(r@) == payer_meta(),
{
    let r = vec![ident("payer"), Tok::Punct('=', false), ident("payer")];
    assert(toks_view(r@) =~= payer_meta());
    r
}

/// Pushes the label and `payer = payer` for the property of kind `P`, taking it out.
fn take_init<P: crate::propsets::PropOf<RealAccountProps>>(
    props: &mut DynStruct<RealAccountProps>,
    metas: &mut Vec<Vec<Tok>>,
)
    requires
        old(props).wf(),
    ensures
        final(props).wf(),
        final(props)@ == old(props)@.update(P::spec_kind() as int, None),
        tok_lists_view(final(metas)@) == tok_lists_view(old(metas)@) + init_meta(old(props)@, P::spec_kind() as int),
{
    let ghost pre = tok_lists_view(metas@);
    match props.remove::<P>() {
        Some(p) => {
            metas.push(dup_toks(p.label.path.as_slice()));
            metas.push(payer_tokens());
            assert(tok_lists_view(metas@) =~= pre + init_meta(old(props)@, P::spec_kind() as int));
        },
        None => {
            assert(tok_lists_view(metas@) =~= pre + init_meta(old(props)@, P::spec_kind() as int));
        },
    }
}

/// Pushes `init_if_needed` and `payer = payer` when the property is `true`, taking it out
/// either way.
fn take_init_if_needed(props: &mut DynStruct<RealAccountProps>, metas: &mut Vec<Vec<Tok>>)
    requires
        old(props).wf(),
    ensures
        final(props).wf(),
        final(props)@ == old(props)@.update(KIND_INIT_IF_NEEDED as int, None),
        tok_lists_view(final(metas)@) == tok_lists_view(old(metas)@) + flag_init_meta(
            old(props)@,
            KIND_INIT_IF_NEEDED as int,
        ),
{
    let ghost pre = tok_lists_view(metas@);
    match props.remove::<InitIfNeeded>() {
        Some(p) => {
            let on = match &p.value {
                PropValue::Flag(b) => *b,
                _ => false,
            };
            if on {
                metas.push(dup_toks(p.label.path.as_slice()));
                metas.push(payer_tokens());
            }
            assert(tok_lists_view(metas@) =~= pre + flag_init_meta(old(props)@, KIND_INIT_IF_NEEDED as int));
        },
        None => {
            assert(tok_lists_view(metas@) =~= pre + flag_init_meta(old(props)@, KIND_INIT_IF_NEEDED as int));
        },
    }
}

fn take_seeds(props: &mut DynStruct<RealAccountProps>, metas: &mut Vec<Vec<Tok>>)
    requires
        old(props).wf(),
    ensures
        final(props).wf(),
        final(props)@ == old(props)@.update(KIND_SEEDS as int, None),
        tok_lists_view(final(metas)@) == tok_lists_view(old(metas)@) + seeds_meta(old(props)@),
{
    let ghost pre = tok_lists_view(metas@);
    match props.remove::<Seeds>() {
        Some(p) => {
            metas.push(kv_tokens(&p));
            let bump = vec![ident("bump")];
            assert(toks_view(bump@) =~= seq![TokV::Ident("bump"@)]);
            metas.push(bump);
            assert(tok_lists_view(metas@) =~= pre + seeds_meta(old(props)@));
        },
        None => {
            assert(tok_lists_view(metas@) =~= pre + seeds_meta(old(props)@));
        },
    }
}

fn constraint_tokens(c: &[Tok]) -> (r: Vec<Tok>)
    ensures
        toks_view(r@) == seq![TokV::Ident("constraint"@), TokV::Punct('=', false)] + toks_view(c@),
{
    let mut m = vec![ident("constraint"), Tok::Punct('=', false)];
    assert(toks_view(m@) =~= seq![TokV::Ident("constraint"@), TokV::Punct('=', false)]);
    push_toks(&mut m, c);
    m
}

fn take_constraints(props: &mut DynStruct<RealAccountProps>, metas: &mut Vec<Vec<Tok>>)
    requires
        old(props).wf(),
    ensures
        final(props).wf(),
        final(props)@ == old(props)@.update(KIND_CONSTRAINTS as int, None),
        tok_lists_view(final(metas)@) == tok_lists_view(old(metas)@) + constraint_metas(old(props)@),
{
    let ghost pre = tok_lists_view(metas@);
    match props.remove::<Constraints>() {
        Some(p) => {
            let ghost items = value_items(p@.value);
            let ghost want = items.map_values(
                |c: Seq<TokV>| seq![TokV::Ident("constraint"@), TokV::Punct('=', false)] + c,
            );
            match &p.value {
                PropValue::Exprs(cs) => {
                    let mut i: usize = 0;
                    while i < cs.len()
                        invariant
                            i <= cs@.len(),
                            items == tok_lists_view(cs@),
                            want == items.map_values(
                                |c: Seq<TokV>| seq![TokV::Ident("constraint"@), TokV::Punct('=', false)] + c,
                            ),
                            tok_lists_view(metas@) == pre + want.subrange(0, i as int),
                        decreases cs@.len() - i,
                    {
                        let ghost before = tok_lists_view(metas@);
                        metas.push(constraint_tokens(cs[i].as_slice()));
                        assert(want.subrange(0, i + 1) =~= want.subrange(0, i as int).push(want[i as int]));
                        assert(tok_lists_view(metas@) =~= before.push(want[i as int]));
                        i = i + 1;
                    }
                    assert(want.subrange(0, cs@.len() as int) =~= want);
                },
                PropValue::Expr(t) => {
                    metas.push(constraint_tokens(t.as_slice()));
                    assert(tok_lists_view(metas@) =~= pre + want);
                },
                _ => {
                    assert(tok_lists_view(metas@) =~= pre + want);
                },
            }
        },
        None => {
            assert(tok_lists_view(metas@) =~= pre + constraint_metas(old(props)@));
        },
    }
}

/// The arguments contributed by the `i`-th slot of `meta_slots`.
pub open spec fn meta_piece(v: RealView, i: int) -> Seq<Seq<TokV>> {
    if i == 0 {
        init_meta(v, KIND_REAL_INIT as int)
    } else if i == 1 {
        flag_init_meta(v, KIND_INIT_IF_NEEDED as int)
    } else if i == 2 {
        seeds_meta(v)
    } else if i == 3 {
        kv_meta(v, KIND_SPACE as int)
    } else if i == 4 {
        label_meta(v, KIND_MUT as int)
    } else if i < 16 {
        kv_meta(v, i + 2)
    } else {
        constraint_metas(v)
    }
}

/// The arguments contributed by the first `n` slots of `meta_slots`.
pub open spec fn metas_upto(v: RealView, n: nat) -> Seq<Seq<TokV>>
    decreases n,
{
    if n == 0 {
        seq![]
    } else {
        metas_upto(v, (n - 1) as nat) + meta_piece(v, n - 1)
    }
}

proof fn lemma_metas_upto(v: RealView)
    ensures
        metas_upto(v, 17) == spec_metas(v),
{
    reveal_with_fuel(metas_upto, 18);
    assert(metas_upto(v, 17) =~= spec_metas(v));
}

proof fn lemma_piece_slot(v: RealView, w: RealView, i: int)
    requires
        0 <= i < 17,
        v[meta_slots()[i]] == w[meta_slots()[i]],
    ensures
        meta_piece(v, i) == meta_piece(w, i),
{
}

fn take_piece(i: usize, props: &mut DynStruct<RealAccountProps>, metas: &mut Vec<Vec<Tok>>)
    requires
        i < 17,
        old(props).wf(),
    ensures
        final(props).wf(),
        final(props)@ == old(props)@.update(meta_slots()[i as int], None),
        tok_lists_view(final(metas)@) == tok_lists_view(old(metas)@) + meta_piece(old(props)@, i as int),
{
    if i == 0 {
        take_init::<RealInit>(props, metas);
    } else if i == 1 {
        take_init_if_needed(props, metas);
    } else if i == 2 {
        take_seeds(props, metas);
    } else if i == 3 {
        take_kv::<Space>(props, metas);
    } else if i == 4 {
        let _ = take_label::<Mut>(props, metas);
    } else if i == 5 {
        take_kv::<TokenMint>(props, metas);
    } else if i == 6 {
        take_kv::<TokenAuthority>(props, metas);
    } else if i == 7 {
        take_kv::<TokenProgram>(props, metas);
    } else if i == 8 {
        take_kv::<AssociatedTokenMint>(props, metas);
    } else if i == 9 {
        take_kv::<AssociatedTokenAuthority>(props, metas);
    } else if i == 10 {
        take_kv::<AssociatedTokenProgram>(props, metas);
    } else if i == 11 {
        take_kv::<MintAuthority>(props, metas);
    } else if i == 12 {
        take_kv::<MintDecimals>(props, metas);
    } else if i == 13 {
        take_kv::<MintTokenProgram>(props, metas);
    } else if i == 14 {
        take_kv::<TransferHookAuthority>(props, metas);
    } else if i == 15 {
        take_kv::<TransferHookProgramId>(props, metas);
    } else {
        take_constraints(props, metas);
    }
}

/// Takes the properties that become `#[account(..)]` arguments out of the set and gives
/// the arguments (see `spec_metas`), or nothing when there are none.
pub fn compile_metas(props: &mut DynStruct<RealAccountProps>) -> (r: Option<Vec<Vec<Tok>>>)
    requires
        old(props).wf(),
    ensures
        final(props).wf(),
        final(props)@ == without(old(props)@, meta_slots()),
        match r {
            Some(m) => tok_lists_view(m@) == spec_metas(old(props)@) && m@.len() > 0,
            None => spec_metas(old(props)@).len() == 0,
        },
{
    proof {
        props.lemma_wf();
    }
    let ghost v = props@;
    let mut metas: Vec<Vec<Tok>> = Vec::new();
    assert(tok_lists_view(metas@) =~= seq![]);
    assert(without(v, meta_slots().take(0)) =~= v);
    let mut i: usize = 0;
    while i < 17
        invariant
            i <= 17,
            v.len() == NUM_KINDS,
            props.wf(),
            props@ == without(v, meta_slots().take(i as int)),
            tok_lists_view(metas@) == metas_upto(v, i as nat),
        decreases 17 - i,
    {
        let ghost k = meta_slots()[i as int];
        assert(!meta_slots().take(i as int).contains(k)) by {
            if meta_slots().take(i as int).contains(k) {
                let w = choose|w: int| 0 <= w < i && meta_slots().take(i as int)[w] == k;
                assert(meta_slots()[w] == k);
            }
        }
        proof {
            lemma_piece_slot(props@, v, i as int);
        }
        take_piece(i, props, &mut metas);
        proof {
            assert(meta_slots().take(i + 1) =~= meta_slots().take(i as int).push(k));
            lemma_without_step(v, meta_slots().take(i as int), k);
            assert(props@ =~= without(without(v, meta_slots().take(i as int)), seq![k])) by {
                assert forall|j: int| #[trigger] seq![k].contains(j) <==> j == k by {
                    if j == k {
                        assert(seq![k][0] == j);
                    }
                }
            }
        }
        i = i + 1;
    }
    proof {
        lemma_metas_upto(v);
        assert(meta_slots().take(17) =~= meta_slots());
    }
    if metas.len() == 0 {
        None
    } else {
        Some(metas)
    }
}

/// The text of a `check` value: the string literal's contents, or its text when it is not
/// one (a text that may hold a C string literal is taken as it is).
pub open spec fn check_text(v: PropValueV) -> Seq<char> {
    let text = toks_text(value_toks(v));
    if has_c_literal(text) {
        text
    } else {
        match lit_str_value_of(text) {
            Some(s) => s,
            None => text,
        }
    }
}

/// The doc line `CHECK ..` of an account with a `check` property.
pub open spec fn spec_check_doc(v: RealView) -> Option<Seq<char>> {
    match v[KIND_CHECK as int] {
        Some(p) => Some("CHECK "@ + check_text(p.value)),
        None => None,
    }
}

/// An account as a field of the context struct and of its wrapper struct.
pub struct CompiledAccount {
    pub name: String,
    /// The arguments of its `#[account(..)]` attribute; none when it has no attribute.
    pub metas: Option<Vec<Vec<Tok>>>,
    /// The doc line required for unchecked accounts.
    pub check_doc: Option<String>,
    /// The field type.
    pub ty: Vec<Tok>,
    /// The type in the wrapper struct: `ReadOnly<..>` when the account is only read.
    pub wrapped_ty: Vec<Tok>,
}

pub struct CompiledAccountV {
    pub name: Seq<char>,
    pub metas: Option<Seq<Seq<TokV>>>,
    pub check_doc: Option<Seq<char>>,
    pub ty: Seq<TokV>,
    pub wrapped_ty: Seq<TokV>,
}

impl View for CompiledAccount {
    type V = CompiledAccountV;

    open spec fn view(&self) -> CompiledAccountV {
        CompiledAccountV {
            name: self.name@,
            metas: match self.metas {
                Some(m) => Some(tok_lists_view(m@)),
                None => None,
            },
            check_doc: opt_chars(self.check_doc),
            ty: toks_view(self.ty@),
            wrapped_ty: toks_view(self.wrapped_ty@),
        }
    }
}

/// An account compiled: its `#[account(..)]` arguments (none when there are none), the
/// `CHECK` doc line, the field type, and the wrapper type (`ReadOnly<..>` around the field
/// type when the account is only read).
pub open spec fn spec_compile_account(name: Seq<char>, v: RealView) -> CompiledAccountV {
    let ty = spec_compile_type(v);
    CompiledAccountV {
        name,
        metas: if spec_metas(v).len() == 0 {
            None
        } else {
            Some(spec_metas(v))
        },
        check_doc: spec_check_doc(v),
        ty,
        wrapped_ty: if spec_is_ro(v) {
            generic("ReadOnly"@, ty)
        } else {
            ty
        },
    }
}

/// Compiling an account uses up every property it holds: after the type, the
/// `#[account(..)]` arguments and the `check` property are taken out, no property is left over.
pub proof fn law_compile_uses_every_property(v: RealView)
    requires
        crate::propsets::wf_view::<RealAccountProps>(v),
    ensures
        without(
            without(
                without(v, seq![KIND_ACCOUNT_TYPE as int, KIND_ZERO_COPY as int, KIND_BOXED as int]),
                meta_slots(),
            ),
            seq![KIND_CHECK as int],
        ) == empty_slots::<LabelledPropV>(),
{
    let w = without(
        without(
            without(v, seq![KIND_ACCOUNT_TYPE as int, KIND_ZERO_COPY as int, KIND_BOXED as int]),
            meta_slots(),
        ),
        seq![KIND_CHECK as int],
    );
    assert forall|k: int| 0 <= k < NUM_KINDS implies #[trigger] w[k] is None by {
        if k <= 20 {
            if k == 0 || k == 1 || k == 5 {
                assert(seq![KIND_ACCOUNT_TYPE as int, KIND_ZERO_COPY as int, KIND_BOXED as int].contains(k)) by {
                    if k == 5 {
                        assert(seq![KIND_ACCOUNT_TYPE as int, KIND_ZERO_COPY as int, KIND_BOXED as int][0] == k);
                    } else if k == 1 {
                        assert(seq![KIND_ACCOUNT_TYPE as int, KIND_ZERO_COPY as int, KIND_BOXED as int][1] == k);
                    } else {
                        assert(seq![KIND_ACCOUNT_TYPE as int, KIND_ZERO_COPY as int, KIND_BOXED as int][2] == k);
                    }
                }
            } else if k == 3 {
                assert(seq![KIND_CHECK as int][0] == k);
            } else {
                let idx: int = if k == 18 {
                    0
                } else if k == 19 {
                    1
                } else if k == 6 {
                    2
                } else if k == 2 {
                    3
                } else if k == 20 {
                    4
                } else if k == 4 {
                    16
                } else {
                    k - 2
                };
                assert(meta_slots()[idx] == k);
            }
        } else {
            if v[k] is Some {
                crate::types::lemma_real_props_allowed(k as nat);
            }
        }
    }
    assert(w =~= empty_slots::<LabelledPropV>());
}

proof fn lemma_metas_upto_same(v: RealView, w: RealView, n: nat)
    requires
        n <= 17,
        forall|i: int| 0 <= i < 17 ==> v[#[trigger] meta_slots()[i]] == w[meta_slots()[i]],
    ensures
        metas_upto(v, n) == metas_upto(w, n),
    decreases n,
{
    if n > 0 {
        lemma_metas_upto_same(v, w, (n - 1) as nat);
        lemma_piece_slot(v, w, n - 1);
    }
}

/// The arguments depend only on the slots they are made from.
proof fn lemma_metas_same(v: RealView, w: RealView)
    requires
        forall|i: int| 0 <= i < 17 ==> v[#[trigger] meta_slots()[i]] == w[meta_slots()[i]],
    ensures
        spec_metas(v) == spec_metas(w),
{
    lemma_metas_upto_same(v, w, 17);
    lemma_metas_upto(v);
    lemma_metas_upto(w);
}

/// The `CHECK ..` doc line of a `check` property.
fn check_doc_line(p: &LabelledProp) -> (r: String)
    ensures
        r@ == "CHECK "@ + check_text(p.value@),
{
    let v = value_tokens(&p.value);
    let text = crate::token::tokens_text(v.as_slice());
    let text_s = string_of(text.as_slice());
    let mut doc: Vec<char> = Vec::new();
    push_str(&mut doc, "CHECK ");
    if holds_c_literal(text_s.as_str()) {
        push_all(&mut doc, text.as_slice());
    } else {
        match lit_str_value(text_s.as_str()) {
            Some(s) => push_str(&mut doc, s.as_str()),
            None => push_all(&mut doc, text.as_slice()),
        }
    }
    string_of(doc.as_slice())
}

/// Taking out the type's slots leaves the slots of the `#[account(..)]` arguments alone.
pub proof fn lemma_type_keeps_metas(v: RealView, w: RealView)
    requires
        v.len() == NUM_KINDS,
        w == without(v, seq![KIND_ACCOUNT_TYPE as int, KIND_ZERO_COPY as int, KIND_BOXED as int]),
    ensures
        forall|i: int| 0 <= i < 17 ==> v[#[trigger] meta_slots()[i]] == w[meta_slots()[i]],
        spec_metas(v) == spec_metas(w),
{
    let ks = seq![KIND_ACCOUNT_TYPE as int, KIND_ZERO_COPY as int, KIND_BOXED as int];
    assert forall|i: int| 0 <= i < 17 implies v[#[trigger] meta_slots()[i]] == w[meta_slots()[i]] by {
        let k = meta_slots()[i];
        assert(0 <= k < NUM_KINDS);
        assert(!ks.contains(k)) by {
            if ks.contains(k) {
                let j = choose|j: int| 0 <= j < 3 && ks[j] == k;
            }
        }
    }
    lemma_metas_same(v, w);
}

/// The slot of `check` is neither a type slot nor an argument slot.
proof fn lemma_check_slot_apart()
    ensures
        !meta_slots().contains(KIND_CHECK as int),
        !seq![KIND_ACCOUNT_TYPE as int, KIND_ZERO_COPY as int, KIND_BOXED as int].contains(KIND_CHECK as int),
{
    let ks = seq![KIND_ACCOUNT_TYPE as int, KIND_ZERO_COPY as int, KIND_BOXED as int];
    if meta_slots().contains(KIND_CHECK as int) {
        let j = choose|j: int| 0 <= j < 17 && meta_slots()[j] == KIND_CHECK as int;
    }
    if ks.contains(KIND_CHECK as int) {
        let j = choose|j: int| 0 <= j < 3 && ks[j] == KIND_CHECK as int;
    }
}

/// Compiles one account (see `spec_compile_account`).
pub fn compile_account(name: String, props: BuiltAccount) -> (r: CompiledAccount)
    requires
        props.wf(),
        props@[KIND_ACCOUNT_TYPE as int] is Some,
    ensures
        r@ == spec_compile_account(name@, props@),
{
    proof {
        props.0.lemma_wf();
    }
    let ghost v = props@;
    let mut props = props;
    let ro = props.is_ro();
    let ty = compile_type(&mut props);
    proof {
        lemma_type_keeps_metas(v, props@);
        lemma_check_slot_apart();
    }
    let metas = compile_metas(&mut props.0);
    assert(props@[KIND_CHECK as int] == v[KIND_CHECK as int]);
    let check = props.0.remove::<Check>();
    let check_doc = match &check {
        Some(p) => Some(check_doc_line(p)),
        None => None,
    };
    let wrapped_ty = if ro {
        generic_exec("ReadOnly", ty.as_slice())
    } else {
        dup_toks(ty.as_slice())
    };
    CompiledAccount { name, metas, check_doc, ty, wrapped_ty }
}

/// The text with each `-` replaced by `_`.
pub open spec fn dash_to_underscore(s: Seq<char>) -> Seq<char> {
    s.map_values(|c: char| if c == '-' { '_' } else { c })
}

/// The name of the constant made from a seed: `KEY_<SEED IN UPPER CASE>_<position>`.
pub open spec fn const_name(seed: Seq<char>, idx: nat) -> Seq<char> {
    "KEY_"@ + dash_to_underscore(uppercase_of(seed)) + "_"@ + decimal(idx)
}

/// The constant a seed becomes: a seed written as a byte string literal that holds UTF-8
/// text becomes a constant named after the text and the seed's position.
pub open spec fn seed_const(e: Seq<TokV>, idx: nat) -> Option<(Seq<char>, TokV)> {
    if e.len() == 1 && e[0] is Literal && !has_c_literal(e[0]->Literal_0) {
        match byte_str_value_of(e[0]->Literal_0) {
            Some(b) => if valid_utf8(b) {
                Some((const_name(decode_utf8(b), idx), e[0]))
            } else {
                None
            },
            None => None,
        }
    } else {
        None
    }
}

/// A seed after the extraction: the constant's name, or the seed as it was.
pub open spec fn rewrite_seed(e: Seq<TokV>, idx: nat) -> Seq<TokV> {
    match seed_const(e, idx) {
        Some((n, _)) => seq![TokV::Ident(n)],
        None => e,
    }
}

/// The constants of a list of seeds, in order.
pub open spec fn seed_consts(e: Seq<Seq<TokV>>) -> Seq<(Seq<char>, TokV)>
    decreases e.len(),
{
    if e.len() == 0 {
        seq![]
    } else {
        seed_consts(e.drop_last()) + match seed_const(e.last(), (e.len() - 1) as nat) {
            Some(c) => seq![c],
            None => seq![],
        }
    }
}

/// The constants an account's seeds give.
pub open spec fn account_consts(v: RealView) -> Seq<(Seq<char>, TokV)> {
    match v[KIND_SEEDS as int] {
        Some(p) => match p.value {
            PropValueV::Exprs(e) => seed_consts(e),
            _ => seq![],
        },
        None => seq![],
    }
}

/// The account with each extracted seed replaced by its constant's name.
pub open spec fn rewrite_account(v: RealView) -> RealView {
    match v[KIND_SEEDS as int] {
        Some(p) => match p.value {
            PropValueV::Exprs(e) => v.update(
                KIND_SEEDS as int,
                Some(
                    LabelledPropV {
                        label: p.label,
                        kind: p.kind,
                        value: PropValueV::Exprs(Seq::new(e.len(), |i: int| rewrite_seed(e[i], i as nat))),
                    },
                ),
            ),
            _ => v,
        },
        None => v,
    }
}

fn push_dash_to_underscore(out: &mut Vec<char>, s: &[char])
    ensures
        final(out)@ == old(out)@ + dash_to_underscore(s@),
{
    let mut i: usize = 0;
    while i < s.len()
        invariant
            i <= s@.len(),
            out@ == old(out)@ + dash_to_underscore(s@.subrange(0, i as int)),
        decreases s@.len() - i,
    {
        let c = s[i];
        out.push(if c == '-' { '_' } else { c });
        assert(dash_to_underscore(s@.subrange(0, i + 1)) =~= dash_to_underscore(s@.subrange(0, i as int)).push(
            if c == '-' { '_' } else { c },
        ));
        i = i + 1;
    }
    assert(s@.subrange(0, s@.len() as int) == s@);
}

/// The name of the constant made from a seed, given the seed's text in upper case:
/// `KEY_<text with each '-' as '_'>_<position>` (see `const_name`).
pub fn constant_name(upper: &str, idx: usize) -> (r: String)
    ensures
        r@ == "KEY_"@ + dash_to_underscore(upper@) + "_"@ + decimal(idx as nat),
{
    let mut name: Vec<char> = Vec::new();
    push_str(&mut name, "KEY_");
    let up = chars_of(upper);
    push_dash_to_underscore(&mut name, up.as_slice());
    push_str(&mut name, "_");
    push_decimal(&mut name, idx);
    string_of(name.as_slice())
}

/// The constant a seed becomes, if any (see `seed_const`).
fn seed_constant(e: &Vec<Tok>, idx: usize) -> (r: Option<(String, Tok)>)
    ensures
        match r {
            Some((n, t)) => seed_const(toks_view(e@), idx as nat) == Some((n@, t@)),
            None => seed_const(toks_view(e@), idx as nat) is None,
        },
{
    if e.len() != 1 {
        return None;
    }
    assert(toks_view(e@)[0] == e@[0]@);
    match &e[0] {
        Tok::Literal(text) => {
            if holds_c_literal(text.as_str()) {
                return None;
            }
            match byte_str_value(text.as_str()) {
                Some(bytes) => match string_from_utf8(bytes) {
                    Some(s) => {
                        let upper = to_uppercase(s.as_str());
                        Some((constant_name(upper.as_str(), idx), e[0].dup()))
                    },
                    None => None,
                },
                None => None,
            }
        },
        _ => None,
    }
}

/// The constants of all seeds, in order of appearance, each name with the last literal
/// that gave it.
pub struct Constants(pub Vec<(String, Tok)>);

/// The constants found, in order.
pub open spec fn consts_view(v: Seq<(String, Tok)>) -> Seq<(Seq<char>, TokV)> {
    v.map_values(|c: (String, Tok)| (c.0@, c.1@))
}

/// Replaces each extractable seed of the account by its constant's name and appends the
/// constants to `found`.
pub fn extract_account_constants(found: &mut Vec<(String, Tok)>, account: &mut BuiltAccount)
    requires
        old(account).wf(),
    ensures
        final(account).wf(),
        final(account)@ == rewrite_account(old(account)@),
        consts_view(final(found)@) == consts_view(old(found)@) + account_consts(old(account)@),
{
    proof {
        account.0.lemma_wf();
    }
    let ghost v = account@;
    match account.0.remove::<Seeds>() {
        None => {
            assert(account@ =~= v);
            assert(consts_view(found@) =~= consts_view(old(found)@) + account_consts(v));
        },
        Some(p) => {
            let LabelledProp { label, kind, value } = p;
            match value {
                PropValue::Exprs(elems) => {
                    let ghost ev = tok_lists_view(elems@);
                    let mut out: Vec<Vec<Tok>> = Vec::new();
                    let mut i: usize = 0;
                    while i < elems.len()
                        invariant
                            i <= elems@.len(),
                            ev == tok_lists_view(elems@),
                            out@.len() == i,
                            forall|j: int| 0 <= j < i ==> toks_view((#[trigger] out@[j])@) == rewrite_seed(ev[j], j as nat),
                            consts_view(found@) == consts_view(old(found)@) + seed_consts(ev.subrange(0, i as int)),
                        decreases elems@.len() - i,
                    {
                        let ghost pre = consts_view(found@);
                        let ghost sub = ev.subrange(0, i + 1);
                        assert(sub.drop_last() =~= ev.subrange(0, i as int));
                        assert(sub.last() == toks_view(elems@[i as int]@));
                        match seed_constant(&elems[i], i) {
                            Some((n, t)) => {
                                let id = Tok::Ident(n.clone());
                                found.push((n, t));
                                let one = vec![id];
                                assert(toks_view(one@) =~= rewrite_seed(ev[i as int], i as nat));
                                out.push(one);
                                assert(consts_view(found@) =~= pre.push(seed_const(ev[i as int], i as nat)->0));
                            },
                            None => {
                                out.push(dup_toks(elems[i].as_slice()));
                                assert(consts_view(found@) =~= pre);
                            },
                        }
                        assert(consts_view(found@) =~= consts_view(old(found)@) + seed_consts(sub));
                        i = i + 1;
                    }
                    assert(ev.subrange(0, elems@.len() as int) =~= ev);
                    let ghost ov = tok_lists_view(out@);
                    assert(ov =~= Seq::new(ev.len(), |j: int| rewrite_seed(ev[j], j as nat)));
                    assert(crate::types::real_props()[6] == KIND_SEEDS);
                    account.0.insert::<Seeds>(LabelledProp { label, kind, value: PropValue::Exprs(out) });
                    assert(account@ =~= rewrite_account(v));
                },
                other => {
                    let ghost pv = other@;
                    assert(crate::types::real_props()[6] == KIND_SEEDS);
                    account.0.insert::<Seeds>(LabelledProp { label, kind, value: other });
                    assert(account@ =~= v);
                    assert(consts_view(found@) =~= consts_view(old(found)@) + account_consts(v));
                },
            }
        },
    }
}

} // verus!
