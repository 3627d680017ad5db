//! Completing a context struct that is written by hand: its fields name accounts, with
//! their arguments in an `#[account(..)]` attribute; the definitions supply the rest.

use crate::builder::{build_context, context_accounts_ok, context_fails, in_closure, is_ctx_account, names_account};
use crate::output::all_typed;
use crate::programs::spec_add_programs;
use crate::render::{CompiledAccount, CompiledAccountV, compile_account, compile_metas, compile_type, lemma_type_keeps_metas, spec_compile_account, spec_compile_type, spec_metas};
use crate::text::{str_eq};
use crate::token::{Delim, Tok, TokV, toks_view, tok_lists_view};
use crate::types::{AccountArg, BuiltAccount, BuiltContext, ContextProp, ContextPropV, DslError, KeyedVec, RealView, YamlAccounts, args_view, ctx_props_view, defs_wf, keys_of, lemma_key_index, lookup};
use vstd::prelude::*;

verus! {

/// Words separated by commas, a trailing comma allowed.
pub open spec fn comma_idents(t: Seq<TokV>) -> Option<Seq<Seq<char>>>
    decreases t.len(),
{
    if t.len() == 0 {
        Some(seq![])
    } else {
        match t[0] {
            TokV::Ident(s) => if t.len() == 1 {
                Some(seq![s])
            } else if t[1] matches TokV::Punct(',', _) {
                match comma_idents(t.subrange(2, t.len() as int)) {
                    Some(r) => Some(seq![s] + r),
                    None => None,
                }
            } else {
                None
            },
            _ => None,
        }
    }
}

/// The arguments of an `#[account(..)]` attribute, given the tokens after `account`: a
/// parenthesized list of words.
pub open spec fn attr_args(t: Seq<TokV>) -> Option<Seq<Seq<char>>> {
    if t.len() >= 2 && t[0] == TokV::Open(Delim::Paren) && t.last() == TokV::Close(Delim::Paren) {
        comma_idents(t.subrange(1, t.len() - 1))
    } else {
        None
    }
}

fn comma_idents_from(t: &[Tok], i: usize, end: usize) -> (r: Option<Vec<AccountArg>>)
    requires
        i <= end <= t@.len(),
    ensures
        match r {
            Some(v) => comma_idents(toks_view(t@).subrange(i as int, end as int)) == Some(args_view(v@)),
            None => comma_idents(toks_view(t@).subrange(i as int, end as int)) is None,
        },
    decreases end - i,
{
    let ghost s = toks_view(t@).subrange(i as int, end as int);
    if i == end {
        let v: Vec<AccountArg> = Vec::new();
        assert(args_view(v@) =~= seq![]);
        return Some(v);
    }
    assert(s[0] == t@[i as int]@);
    match &t[i] {
        Tok::Ident(w) => {
            if i + 1 == end {
                let v = vec![AccountArg(w.clone())];
                assert(args_view(v@) =~= seq![w@]);
                Some(v)
            } else {
                assert(s[1] == t@[i + 1]@);
                let comma = match &t[i + 1] {
                    Tok::Punct(c, _) => *c == ',',
                    _ => false,
                };
                if comma {
                    assert(s.subrange(2, s.len() as int) =~= toks_view(t@).subrange(i + 2, end as int));
                    match comma_idents_from(t, i + 2, end) {
                        Some(rest) => {
                            let first = AccountArg(w.clone());
                            assert(first@ == w@);
                            let mut v = vec![first];
                            let ghost rv = rest@;
                            let mut rest = rest;
                            v.append(&mut rest);
                            assert(v@ == seq![first] + rv);
                            assert(args_view(v@) =~= seq![w@] + args_view(rv)) by {
                                assert(args_view(v@)[0] == w@);
                                assert forall|k: int| 1 <= k < args_view(v@).len() implies args_view(v@)[k]
                                    == args_view(rv)[k - 1] by {
                                    assert(v@[k] == rv[k - 1]);
                                }
                            }
                            Some(v)
                        },
                        None => None,
                    }
                } else {
                    None
                }
            }
        },
        _ => None,
    }
}

/// Reads the arguments of an `#[account(..)]` attribute (see `attr_args`).
pub fn parse_account_attr(t: &[Tok]) -> (r: Option<Vec<AccountArg>>)
    ensures
        match r {
            Some(v) => attr_args(toks_view(t@)) == Some(args_view(v@)),
            None => attr_args(toks_view(t@)) is None,
        },
{
    let ghost tv = toks_view(t@);
    let n = t.len();
    if n < 2 {
        return None;
    }
    assert(tv[0] == t@[0]@);
    assert(tv.last() == t@[n - 1]@);
    let opens = match &t[0] {
        Tok::Open(Delim::Paren) => true,
        _ => false,
    };
    let closes = match &t[n - 1] {
        Tok::Close(Delim::Paren) => true,
        _ => false,
    };
    if opens && closes {
        comma_idents_from(t, 1, n - 1)
    } else {
        None
    }
}

/// A field of a context struct: its name, and the tokens after `account` in its first
/// `#[account..]` attribute, if it has one.
pub struct StructField {
    pub name: String,
    pub attr: Option<Vec<Tok>>,
}

pub struct StructFieldV {
    pub name: Seq<char>,
    pub attr: Option<Seq<TokV>>,
}

impl View for StructField {
    type V = StructFieldV;

    open spec fn view(&self) -> StructFieldV {
        StructFieldV {
            name: self.name@,
            attr: match self.attr {
                Some(t) => Some(toks_view(t@)),
                None => None,
            },
        }
    }
}

pub open spec fn fields_view(v: Seq<StructField>) -> Seq<StructFieldV> {
    v.map_values(|f: StructField| f@)
}

/// The names of the fields.
pub open spec fn field_names(v: Seq<StructFieldV>) -> Seq<Seq<char>> {
    v.map_values(|f: StructFieldV| f.name)
}

/// The arguments a field gives its account: none without an attribute.
pub open spec fn field_args(f: StructFieldV) -> Option<Seq<Seq<char>>> {
    match f.attr {
        Some(t) => attr_args(t),
        None => Some(seq![]),
    }
}

/// The context lines that the fields stand for: one account line per field.
pub open spec fn struct_props(v: Seq<StructFieldV>) -> Seq<ContextPropV> {
    Seq::new(v.len(), |i: int| ContextPropV::Account { name: v[i].name, args: field_args(v[i])->0 })
}

/// Reads the context lines of a struct: one account per field, with the arguments of its
/// attribute.  Fails on the first field whose attribute is not a list of words.
pub fn read_struct(fields: &Vec<StructField>) -> (r: Result<Vec<ContextProp>, DslError>)
    ensures
        match r {
            Ok(props) => (forall|i: int| 0 <= i < fields@.len() ==> #[trigger] field_args(fields@[i]@) is Some)
                && ctx_props_view(props@) == struct_props(fields_view(fields@)),
            Err(e) => exists|i: int|
                0 <= i < fields@.len() && #[trigger] field_args(fields@[i]@) is None && (forall|j: int|
                    0 <= j < i ==> #[trigger] field_args(fields@[j]@) is Some) && (e matches DslError::BadAccountAttr(
                    n,
                ) && n@ == fields@[i].name@),
        },
{
    let mut out: Vec<ContextProp> = Vec::new();
    let mut i: usize = 0;
    while i < fields.len()
        invariant
            i <= fields@.len(),
            out@.len() == i,
            forall|j: int| 0 <= j < i ==> #[trigger] field_args(fields@[j]@) is Some,
            forall|j: int|
                0 <= j < i ==> (#[trigger] out@[j])@ == (ContextPropV::Account {
                    name: fields@[j]@.name,
                    args: field_args(fields@[j]@)->0,
                }),
        decreases fields@.len() - i,
    {
        let f = &fields[i];
        let args = match &f.attr {
            Some(t) => match parse_account_attr(t.as_slice()) {
                Some(a) => a,
                None => {
                    assert(field_args(fields@[i as int]@) is None);
                    return Err(DslError::BadAccountAttr(f.name.clone()));
                },
            },
            None => {
                let a: Vec<AccountArg> = Vec::new();
                assert(args_view(a@) =~= seq![]);
                a
            },
        };
        out.push(ContextProp::Account { name: f.name.clone(), args });
        i = i + 1;
    }
    assert(ctx_props_view(out@) =~= struct_props(fields_view(fields@))) by {
        assert forall|j: int| 0 <= j < out@.len() implies #[trigger] ctx_props_view(out@)[j] == struct_props(
            fields_view(fields@),
        )[j] by {
            assert(fields_view(fields@)[j] == fields@[j]@);
        }
    }
    Ok(out)
}

/// A field added to the struct for an account that it does not name.
pub struct NewField {
    pub name: String,
    pub ty: Vec<Tok>,
    /// The arguments of its `#[account(..)]` attribute; none when it has no attribute.
    pub metas: Option<Vec<Vec<Tok>>>,
}

pub struct NewFieldV {
    pub name: Seq<char>,
    pub ty: Seq<TokV>,
    pub metas: Option<Seq<Seq<TokV>>>,
}

impl View for NewField {
    type V = NewFieldV;

    open spec fn view(&self) -> NewFieldV {
        NewFieldV {
            name: self.name@,
            ty: toks_view(self.ty@),
            metas: match self.metas {
                Some(m) => Some(tok_lists_view(m@)),
                None => None,
            },
        }
    }
}

/// The `#[account(..)]` arguments of an account, none when there are none.
pub open spec fn opt_metas(v: RealView) -> Option<Seq<Seq<TokV>>> {
    if spec_metas(v).len() == 0 {
        None
    } else {
        Some(spec_metas(v))
    }
}

/// The field for an account: its type and its arguments.
pub open spec fn spec_new_field(name: Seq<char>, v: RealView) -> NewFieldV {
    NewFieldV { name, ty: spec_compile_type(v), metas: opt_metas(v) }
}

/// The fields for the accounts not named in `names`, in the accounts' order.
pub open spec fn new_fields(accts: Seq<(Seq<char>, RealView)>, names: Seq<Seq<char>>) -> Seq<NewFieldV>
    decreases accts.len(),
{
    if accts.len() == 0 {
        seq![]
    } else {
        new_fields(accts.drop_last(), names) + if names.contains(accts.last().0) {
            seq![]
        } else {
            seq![spec_new_field(accts.last().0, accts.last().1)]
        }
    }
}

/// What completing a struct changes: the arguments for each of its fields, in order; the
/// fields to add; and every account compiled, for the wrapper struct.
pub struct StructPlan {
    pub field_metas: Vec<Option<Vec<Vec<Tok>>>>,
    pub new_fields: Vec<NewField>,
    pub wrapper: Vec<CompiledAccount>,
}

pub struct StructPlanV {
    pub field_metas: Seq<Option<Seq<Seq<TokV>>>>,
    pub new_fields: Seq<NewFieldV>,
    pub wrapper: Seq<CompiledAccountV>,
}

pub open spec fn opt_tok_lists(o: Option<Vec<Vec<Tok>>>) -> Option<Seq<Seq<TokV>>> {
    match o {
        Some(m) => Some(tok_lists_view(m@)),
        None => None,
    }
}

impl View for StructPlan {
    type V = StructPlanV;

    open spec fn view(&self) -> StructPlanV {
        StructPlanV {
            field_metas: self.field_metas@.map_values(|o: Option<Vec<Vec<Tok>>>| opt_tok_lists(o)),
            new_fields: self.new_fields@.map_values(|f: NewField| f@),
            wrapper: self.wrapper@.map_values(|a: CompiledAccount| a@),
        }
    }
}

/// The accounts compiled, in order.
pub open spec fn compiled_all(accts: Seq<(Seq<char>, RealView)>) -> Seq<CompiledAccountV> {
    Seq::new(accts.len(), |j: int| spec_compile_account(accts[j].0, accts[j].1))
}

/// The plan for a struct with fields named `names` over the accounts of its context.
pub open spec fn spec_plan(names: Seq<Seq<char>>, accts: Seq<(Seq<char>, RealView)>) -> StructPlanV {
    StructPlanV {
        field_metas: Seq::new(names.len(), |i: int| opt_metas(lookup(accts, names[i])->0)),
        new_fields: new_fields(accts, names),
        wrapper: compiled_all(accts),
    }
}

/// No two fields share a name.
pub open spec fn names_distinct(names: Seq<Seq<char>>) -> bool {
    forall|i: int, j: int| 0 <= i < j < names.len() ==> names[i] != names[j]
}

/// Every account compiled, in order, as the wrapper struct needs them.
pub fn compile_context_wrapper(accounts: &KeyedVec<BuiltAccount>) -> (r: Vec<CompiledAccount>)
    requires
        forall|j: int| 0 <= j < accounts.0@.len() ==> (#[trigger] accounts.0@[j]).1.wf(),
        all_typed(accounts@),
    ensures
        r@.map_values(|a: CompiledAccount| a@) == compiled_all(accounts@),
{
    let ghost accts = accounts@;
    let mut out: Vec<CompiledAccount> = Vec::new();
    let mut j: usize = 0;
    while j < accounts.0.len()
        invariant
            accts == accounts@,
            forall|q: int| 0 <= q < accounts.0@.len() ==> (#[trigger] accounts.0@[q]).1.wf(),
            all_typed(accts),
            j <= accounts.0@.len(),
            out@.len() == j,
            forall|q: int| 0 <= q < j ==> (#[trigger] out@[q])@ == compiled_all(accts)[q],
        decreases accounts.0@.len() - j,
    {
        let e = &accounts.0[j];
        assert(accts[j as int] == (e.0@, e.1@));
        let acc = BuiltAccount(e.1.0.dup());
        out.push(compile_account(e.0.clone(), acc));
        j = j + 1;
    }
    assert(out@.map_values(|a: CompiledAccount| a@) =~= compiled_all(accts));
    out
}

/// Whether one of the fields is named `name`.
fn has_field(fields: &Vec<StructField>, name: &str) -> (r: bool)
    ensures
        r == field_names(fields_view(fields@)).contains(name@),
{
    let ghost names = field_names(fields_view(fields@));
    let mut i: usize = 0;
    while i < fields.len()
        invariant
            i <= fields@.len(),
            names == field_names(fields_view(fields@)),
            forall|q: int| 0 <= q < i ==> names[q] != name@,
        decreases fields@.len() - i,
    {
        assert(names[i as int] == fields@[i as int].name@);
        if str_eq(fields[i].name.as_str(), name) {
            return true;
        }
        i = i + 1;
    }
    false
}

/// The plan for a struct whose context is built (see `spec_plan`).
pub fn complete_built_struct(fields: &Vec<StructField>, ctx: &BuiltContext) -> (r: StructPlan)
    requires
        ctx.wf(),
        all_typed(ctx@.accounts),
        names_distinct(field_names(fields_view(fields@))),
        forall|i: int|
            0 <= i < fields@.len() ==> keys_of(ctx@.accounts).contains(#[trigger] fields@[i].name@),
    ensures
        r@ == spec_plan(field_names(fields_view(fields@)), ctx@.accounts),
{
    let ghost accts = ctx@.accounts;
    let ghost names = field_names(fields_view(fields@));
    let entries = &ctx.accounts.0;
    // The arguments of the fields.
    let mut field_metas: Vec<Option<Vec<Vec<Tok>>>> = Vec::new();
    let mut i: usize = 0;
    while i < fields.len()
        invariant
            ctx.wf(),
            accts == ctx@.accounts,
            names == field_names(fields_view(fields@)),
            forall|q: int| 0 <= q < fields@.len() ==> keys_of(accts).contains(#[trigger] fields@[q].name@),
            i <= fields@.len(),
            field_metas@.len() == i,
            forall|q: int|
                0 <= q < i ==> opt_tok_lists(#[trigger] field_metas@[q]) == opt_metas(lookup(accts, names[q])->0),
        decreases fields@.len() - i,
    {
        let name = fields[i].name.as_str();
        assert(names[i as int] == name@);
        proof {
            lemma_key_index(accts, name@);
            assert(keys_of(accts).contains(fields@[i as int].name@));
            let w = choose|w: int| 0 <= w < keys_of(accts).len() && keys_of(accts)[w] == name@;
            assert(accts[w].0 == name@);
        }
        match ctx.accounts.position(name) {
            Some(p) => {
                let mut d = ctx.accounts.0[p as usize].1.0.dup();
                assert(d@ == lookup(accts, name@)->0);
                let m = compile_metas(&mut d);
                field_metas.push(m);
            },
            None => {
                field_metas.push(None);
            },
        }
        i = i + 1;
    }
    // The fields to add.
    let mut added: Vec<NewField> = Vec::new();
    let mut j: usize = 0;
    while j < entries.len()
        invariant
            ctx.wf(),
            entries == ctx.accounts.0,
            accts == ctx@.accounts,
            all_typed(accts),
            names == field_names(fields_view(fields@)),
            j <= entries@.len(),
            added@.map_values(|f: NewField| f@) == new_fields(accts.take(j as int), names),
        decreases entries@.len() - j,
    {
        let e = &entries[j];
        assert(accts[j as int] == (e.0@, e.1@));
        assert(accts.take(j + 1).drop_last() =~= accts.take(j as int));
        assert(accts.take(j + 1).last() == accts[j as int]);
        if !has_field(fields, e.0.as_str()) {
            let mut acc = BuiltAccount(e.1.0.dup());
            proof {
                acc.0.lemma_wf();
            }
            let ghost v = acc@;
            let ty = compile_type(&mut acc);
            proof {
                lemma_type_keeps_metas(v, acc@);
            }
            let metas = compile_metas(&mut acc.0);
            let f = NewField { name: e.0.clone(), ty, metas };
            let ghost pre = added@.map_values(|f: NewField| f@);
            added.push(f);
            assert(added@.map_values(|f: NewField| f@) =~= pre.push(spec_new_field(e.0@, e.1@)));
        } else {
            let ghost pre = added@.map_values(|f: NewField| f@);
            assert(new_fields(accts.take(j + 1), names) =~= pre);
        }
        j = j + 1;
    }
    assert(accts.take(entries@.len() as int) =~= accts);
    let wrapper = compile_context_wrapper(&ctx.accounts);
    let r = StructPlan { field_metas, new_fields: added, wrapper };
    assert(r@.field_metas =~= spec_plan(names, accts).field_metas);
    r
}

/// A name the context names is needed by it.
proof fn lemma_named_in_closure(props: Seq<ContextPropV>, n: Seq<char>, defs: crate::builder::DefsView)
    requires
        is_ctx_account(props, n),
    ensures
        in_closure(n, props, defs),
{
}

/// A struct completed from its context: `None` when some account has no type, else the
/// plan over the context's accounts.
pub open spec fn struct_completed(
    r: Option<StructPlanV>,
    names: Seq<Seq<char>>,
    props: Seq<ContextPropV>,
    defs: crate::builder::DefsView,
) -> bool {
    exists|accounts: Seq<(Seq<char>, RealView)>|
        #[trigger] context_accounts_ok(accounts, props, defs) && match r {
            Some(plan) => all_typed(accounts) && plan == spec_plan(names, accounts),
            None => !all_typed(accounts),
        }
}

/// Completes a struct from the account definitions: reads its fields (see `read_struct`),
/// builds its context (see `build_context`), and plans the changes (see `spec_plan`).
/// Gives `None` when some account of the context has no type.
pub fn complete_struct(fields: &Vec<StructField>, account_defs: &YamlAccounts) -> (r: Result<
    Option<StructPlan>,
    DslError,
>)
    requires
        defs_wf(account_defs.0@),
        names_distinct(field_names(fields_view(fields@))),
    ensures
        match r {
            Ok(p) => {
                &&& forall|i: int| 0 <= i < fields@.len() ==> #[trigger] field_args(fields@[i]@) is Some
                &&& !context_fails(struct_props(fields_view(fields@)), account_defs@)
                &&& struct_completed(
                    match p {
                        Some(plan) => Some(plan@),
                        None => None,
                    },
                    field_names(fields_view(fields@)),
                    struct_props(fields_view(fields@)),
                    account_defs@,
                )
            },
            Err(e) => {
                ||| exists|i: int|
                    0 <= i < fields@.len() && #[trigger] field_args(fields@[i]@) is None && (forall|j: int|
                        0 <= j < i ==> #[trigger] field_args(fields@[j]@) is Some) && (e matches DslError::BadAccountAttr(
                        n,
                    ) && n@ == fields@[i].name@)
                ||| (forall|i: int| 0 <= i < fields@.len() ==> #[trigger] field_args(fields@[i]@) is Some)
                    && context_fails(struct_props(fields_view(fields@)), account_defs@) && (e matches DslError::UndefinedAccount(
                    n,
                ) && in_closure(n@, struct_props(fields_view(fields@)), account_defs@) && lookup(account_defs@, n@) is None)
            },
        },
{
    let props = match read_struct(fields) {
        Ok(p) => p,
        Err(e) => {
            return Err(e);
        },
    };
    let ghost pv = ctx_props_view(props@);
    let ghost names = field_names(fields_view(fields@));
    let ctx = match build_context(&props, account_defs) {
        Ok(c) => c,
        Err(e) => {
            return Err(e);
        },
    };
    let ghost accounts = ctx@.accounts;
    proof {
        let accs = choose|accs: Seq<(Seq<char>, RealView)>|
            crate::builder::built_accounts_ok(accs, pv, account_defs@) && accounts == #[trigger] spec_add_programs(accs);
        crate::programs::lemma_add_programs_extends(accs);
        assert forall|i: int| 0 <= i < fields@.len() implies keys_of(accounts).contains(
            #[trigger] fields@[i].name@,
        ) by {
            let n = fields@[i].name@;
            assert(pv[i] == (ContextPropV::Account { name: n, args: field_args(fields@[i]@)->0 }));
            assert(names_account(pv[i], n));
            lemma_named_in_closure(pv, n, account_defs@);
            assert(keys_of(accs).contains(n));
            let w = choose|w: int| 0 <= w < keys_of(accs).len() && keys_of(accs)[w] == n;
            assert(accounts[w] == accs[w]);
            assert(keys_of(accounts)[w] == n);
        }
    }
    if !crate::output::accounts_typed(&ctx.accounts) {
        return Ok(None);
    }
    let plan = complete_built_struct(fields, &ctx);
    Ok(Some(plan))
}

} // verus!
