//! Completing the context structs of a module: the module is read by `syn`, each struct
//! that carries `#[context]` is completed from the account definitions, in order.

use crate::attribute::{
    StructField, StructFieldV, StructPlan, StructPlanV, complete_struct, field_args, field_names, fields_view,
    names_distinct, read_struct, struct_completed, struct_props,
};
use crate::builder::{DefsView, build_context, context_fails, in_closure};
use crate::syntax::{module_structs, module_structs_of, token_trees, token_trees_of};
use crate::text::{chars_of, str_eq};
use crate::token::{Delim, Tok, TokV, toks_view};
use crate::types::{DslError, DslErrorV, YamlAccounts, defs_wf, lookup};
use vstd::prelude::*;

verus! {

/// An attribute as `syn` gives it: its path and the tokens after the path, as text.
pub struct ModuleAttr {
    pub path: String,
    pub tokens: String,
}

pub struct ModuleAttrV {
    pub path: Seq<char>,
    pub tokens: Seq<char>,
}

impl View for ModuleAttr {
    type V = ModuleAttrV;

    open spec fn view(&self) -> ModuleAttrV {
        ModuleAttrV { path: self.path@, tokens: self.tokens@ }
    }
}

pub open spec fn attrs_view(v: Seq<ModuleAttr>) -> Seq<ModuleAttrV> {
    v.map_values(|a: ModuleAttr| a@)
}

/// A field of a struct: its name (none in a tuple struct) and its attributes.
pub struct ModuleField {
    pub name: Option<String>,
    pub attrs: Vec<ModuleAttr>,
}

pub struct ModuleFieldV {
    pub name: Option<Seq<char>>,
    pub attrs: Seq<ModuleAttrV>,
}

impl View for ModuleField {
    type V = ModuleFieldV;

    open spec fn view(&self) -> ModuleFieldV {
        ModuleFieldV {
            name: match self.name {
                Some(n) => Some(n@),
                None => None,
            },
            attrs: attrs_view(self.attrs@),
        }
    }
}

/// A struct of a module: its name, its attributes and its fields.
pub struct ModuleStruct {
    pub name: String,
    pub attrs: Vec<ModuleAttr>,
    pub fields: Vec<ModuleField>,
}

pub struct ModuleStructV {
    pub name: Seq<char>,
    pub attrs: Seq<ModuleAttrV>,
    pub fields: Seq<ModuleFieldV>,
}

impl View for ModuleStruct {
    type V = ModuleStructV;

    open spec fn view(&self) -> ModuleStructV {
        ModuleStructV {
            name: self.name@,
            attrs: attrs_view(self.attrs@),
            fields: self.fields@.map_values(|f: ModuleField| f@),
        }
    }
}

pub open spec fn structs_view(v: Seq<ModuleStruct>) -> Seq<ModuleStructV> {
    v.map_values(|s: ModuleStruct| s@)
}

pub open spec fn opt_structs_view(o: Option<Vec<ModuleStruct>>) -> Option<Seq<ModuleStructV>> {
    match o {
        Some(v) => Some(structs_view(v@)),
        None => None,
    }
}

/// A token tree of a text: a group, by its delimiter and the text of its content, or a
/// single token.
pub enum TokTree {
    Group(Delim, String),
    Leaf(Tok),
}

pub enum TokTreeV {
    Group(Delim, Seq<char>),
    Leaf(TokV),
}

impl View for TokTree {
    type V = TokTreeV;

    open spec fn view(&self) -> TokTreeV {
        match self {
            TokTree::Group(d, s) => TokTreeV::Group(*d, s@),
            TokTree::Leaf(t) => TokTreeV::Leaf(t@),
        }
    }
}

pub open spec fn trees_view(v: Seq<TokTree>) -> Seq<TokTreeV> {
    v.map_values(|t: TokTree| t@)
}

pub open spec fn opt_trees_view(o: Option<Vec<TokTree>>) -> Option<Seq<TokTreeV>> {
    match o {
        Some(v) => Some(trees_view(v@)),
        None => None,
    }
}

pub open spec fn opt_toks(o: Option<Vec<Tok>>) -> Option<Seq<TokV>> {
    match o {
        Some(v) => Some(toks_view(v@)),
        None => None,
    }
}

/// The tokens of a text, each group flattened into its opening token, its content and its
/// closing token; groups nest at most `depth` deep.
pub open spec fn spec_lex(text: Seq<char>, depth: nat) -> Option<Seq<TokV>>
    decreases depth, 1nat, 0nat,
{
    match token_trees_of(text) {
        None => None,
        Some(ts) => lex_trees(ts, depth),
    }
}

/// The tokens of the trees, flattened (see `spec_lex`).
pub open spec fn lex_trees(ts: Seq<TokTreeV>, depth: nat) -> Option<Seq<TokV>>
    decreases depth, 0nat, ts.len(),
{
    if ts.len() == 0 {
        Some(seq![])
    } else {
        match lex_trees(ts.drop_last(), depth) {
            None => None,
            Some(front) => match ts.last() {
                TokTreeV::Leaf(t) => Some(front.push(t)),
                TokTreeV::Group(d, inner) => if depth == 0 {
                    None
                } else {
                    match spec_lex(inner, (depth - 1) as nat) {
                        None => None,
                        Some(mid) => Some(front + seq![TokV::Open(d)] + mid + seq![TokV::Close(d)]),
                    }
                },
            },
        }
    }
}

proof fn lemma_lex_none_stays(ts: Seq<TokTreeV>, depth: nat, k: int, m: int)
    requires
        0 <= k <= m <= ts.len(),
        lex_trees(ts.take(k), depth) is None,
    ensures
        lex_trees(ts.take(m), depth) is None,
    decreases m - k,
{
    if m > k {
        lemma_lex_none_stays(ts, depth, k, m - 1);
        assert(ts.take(m).drop_last() =~= ts.take(m - 1));
    }
}

/// The tokens of a text (see `spec_lex`).
pub fn lex(text: &str, depth: usize) -> (r: Option<Vec<Tok>>)
    ensures
        opt_toks(r) == spec_lex(text@, depth as nat),
    decreases depth,
{
    let trees = match token_trees(text) {
        None => {
            return None;
        },
        Some(t) => t,
    };
    let ghost tv = trees_view(trees@);
    let mut out: Vec<Tok> = Vec::new();
    let mut i: usize = 0;
    assert(tv.take(0) =~= Seq::<TokTreeV>::empty());
    assert(toks_view(out@) =~= seq![]);
    while i < trees.len()
        invariant
            i <= trees@.len(),
            tv == trees_view(trees@),
            token_trees_of(text@) == Some(tv),
            lex_trees(tv.take(i as int), depth as nat) == Some(toks_view(out@)),
        decreases trees@.len() - i,
    {
        let ghost front = toks_view(out@);
        assert(tv.take(i + 1).drop_last() =~= tv.take(i as int));
        assert(tv.take(i + 1).last() == trees@[i as int]@);
        match &trees[i] {
            TokTree::Leaf(t) => {
                out.push(t.dup());
                assert(toks_view(out@) =~= front.push(t@));
            },
            TokTree::Group(d, inner) => {
                if depth == 0 {
                    proof {
                        lemma_lex_none_stays(tv, depth as nat, i + 1, tv.len() as int);
                        assert(tv.take(tv.len() as int) =~= tv);
                    }
                    return None;
                }
                match lex(inner.as_str(), depth - 1) {
                    None => {
                        proof {
                            lemma_lex_none_stays(tv, depth as nat, i + 1, tv.len() as int);
                            assert(tv.take(tv.len() as int) =~= tv);
                        }
                        return None;
                    },
                    Some(mid) => {
                        let mut mid = mid;
                        let ghost mv = toks_view(mid@);
                        out.push(Tok::Open(*d));
                        out.append(&mut mid);
                        out.push(Tok::Close(*d));
                        assert(toks_view(out@) =~= front + seq![TokV::Open(*d)] + mv + seq![TokV::Close(*d)]);
                    },
                }
            },
        }
        i = i + 1;
    }
    assert(tv.take(tv.len() as int) =~= tv);
    Some(out)
}

/// The first attribute from position `i` on whose path is `account`.
pub open spec fn account_attr_from(attrs: Seq<ModuleAttrV>, i: int) -> Option<ModuleAttrV>
    decreases attrs.len() - i,
{
    if i < 0 || i >= attrs.len() {
        None
    } else if attrs[i].path == "account"@ {
        Some(attrs[i])
    } else {
        account_attr_from(attrs, i + 1)
    }
}

/// A field as the completion reads it: its name and the tokens of its `#[account(..)]`
/// attribute (the first one, when there are several).
pub open spec fn struct_field(f: ModuleFieldV, sname: Seq<char>) -> Result<StructFieldV, DslErrorV> {
    match f.name {
        None => Err(DslErrorV::UnnamedField(sname)),
        Some(n) => match account_attr_from(f.attrs, 0) {
            None => Ok(StructFieldV { name: n, attr: None }),
            Some(a) => match spec_lex(a.tokens, a.tokens.len()) {
                Some(t) => Ok(StructFieldV { name: n, attr: Some(t) }),
                None => Err(DslErrorV::BadAccountAttr(n)),
            },
        },
    }
}

/// The first `k` fields of a struct, read (see `struct_field`); the first failure stops.
pub open spec fn fields_upto(m: ModuleStructV, k: nat) -> Result<Seq<StructFieldV>, DslErrorV>
    decreases k,
{
    if k == 0 {
        Ok(seq![])
    } else {
        match fields_upto(m, (k - 1) as nat) {
            Err(e) => Err(e),
            Ok(front) => match struct_field(m.fields[k - 1], m.name) {
                Err(e) => Err(e),
                Ok(f) => Ok(front.push(f)),
            },
        }
    }
}

/// The fields of a struct, read.
pub open spec fn module_fields(m: ModuleStructV) -> Result<Seq<StructFieldV>, DslErrorV> {
    fields_upto(m, m.fields.len())
}

proof fn lemma_fields_err_stays(m: ModuleStructV, k: nat, n: nat)
    requires
        k <= n,
        fields_upto(m, k) is Err,
    ensures
        fields_upto(m, n) == fields_upto(m, k),
    decreases n - k,
{
    if n > k {
        lemma_fields_err_stays(m, k, (n - 1) as nat);
    }
}

fn lex_attr(a: &ModuleAttr) -> (r: Option<Vec<Tok>>)
    ensures
        opt_toks(r) == spec_lex(a@.tokens, a@.tokens.len()),
{
    let n = chars_of(a.tokens.as_str()).len();
    lex(a.tokens.as_str(), n)
}

/// The first attribute from position `i` on whose path is `account` (see `account_attr_from`).
fn account_attr(attrs: &Vec<ModuleAttr>) -> (r: Option<usize>)
    ensures
        match r {
            Some(j) => j < attrs@.len() && account_attr_from(attrs_view(attrs@), 0) == Some(attrs@[j as int]@),
            None => account_attr_from(attrs_view(attrs@), 0) is None,
        },
{
    let ghost av = attrs_view(attrs@);
    let mut i: usize = 0;
    while i < attrs.len()
        invariant
            i <= attrs@.len(),
            av == attrs_view(attrs@),
            account_attr_from(av, 0) == account_attr_from(av, i as int),
        decreases attrs@.len() - i,
    {
        assert(av[i as int] == attrs@[i as int]@);
        if str_eq(attrs[i].path.as_str(), "account") {
            return Some(i);
        }
        i = i + 1;
    }
    None
}

/// A field as the completion reads it (see `struct_field`).
fn read_field(f: &ModuleField, sname: &String) -> (r: Result<StructField, DslError>)
    ensures
        match r {
            Ok(x) => struct_field(f@, sname@) == Ok::<StructFieldV, DslErrorV>(x@),
            Err(e) => struct_field(f@, sname@) == Err::<StructFieldV, DslErrorV>(e@),
        },
{
    let name = match &f.name {
        None => {
            return Err(DslError::UnnamedField(sname.clone()));
        },
        Some(n) => n.clone(),
    };
    match account_attr(&f.attrs) {
        None => Ok(StructField { name, attr: None }),
        Some(j) => match lex_attr(&f.attrs[j]) {
            Some(t) => Ok(StructField { name, attr: Some(t) }),
            None => Err(DslError::BadAccountAttr(name)),
        },
    }
}

/// The fields of a struct, read (see `module_fields`).
fn read_fields(m: &ModuleStruct) -> (r: Result<Vec<StructField>, DslError>)
    ensures
        match r {
            Ok(v) => module_fields(m@) == Ok::<Seq<StructFieldV>, DslErrorV>(fields_view(v@)),
            Err(e) => module_fields(m@) == Err::<Seq<StructFieldV>, DslErrorV>(e@),
        },
{
    let ghost mv = m@;
    let mut out: Vec<StructField> = Vec::new();
    let mut i: usize = 0;
    assert(fields_view(out@) =~= seq![]);
    while i < m.fields.len()
        invariant
            i <= m.fields@.len(),
            mv == m@,
            fields_upto(mv, i as nat) == Ok::<Seq<StructFieldV>, DslErrorV>(fields_view(out@)),
        decreases m.fields@.len() - i,
    {
        assert(mv.fields[i as int] == m.fields@[i as int]@);
        match read_field(&m.fields[i], &m.name) {
            Ok(x) => {
                let ghost pre = fields_view(out@);
                out.push(x);
                assert(fields_view(out@) =~= pre.push(x@));
            },
            Err(e) => {
                proof {
                    lemma_fields_err_stays(mv, (i + 1) as nat, mv.fields.len());
                }
                return Err(e);
            },
        }
        i = i + 1;
    }
    Ok(out)
}

/// The struct carries `#[context]`: an attribute with the path `context` and nothing after.
pub open spec fn is_context(m: ModuleStructV) -> bool {
    exists|i: int| 0 <= i < m.attrs.len() && (#[trigger] m.attrs[i]).path == "context"@ && m.attrs[i].tokens.len() == 0
}

fn context_marked(m: &ModuleStruct) -> (r: bool)
    ensures
        r == is_context(m@),
{
    let mut i: usize = 0;
    while i < m.attrs.len()
        invariant
            i <= m.attrs@.len(),
            forall|j: int| 0 <= j < i ==> !((#[trigger] m@.attrs[j]).path == "context"@ && m@.attrs[j].tokens.len() == 0),
        decreases m.attrs@.len() - i,
    {
        assert(m@.attrs[i as int] == m.attrs@[i as int]@);
        if str_eq(m.attrs[i].path.as_str(), "context") && chars_of(m.attrs[i].tokens.as_str()).len() == 0 {
            return true;
        }
        i = i + 1;
    }
    false
}

/// The positions of the structs that carry `#[context]`, in order.
pub open spec fn context_indices(ss: Seq<ModuleStructV>) -> Seq<int>
    decreases ss.len(),
{
    if ss.len() == 0 {
        seq![]
    } else {
        context_indices(ss.drop_last()) + if is_context(ss.last()) {
            seq![ss.len() - 1]
        } else {
            seq![]
        }
    }
}

proof fn lemma_indices_prefix(ss: Seq<ModuleStructV>, m: int, n: int)
    requires
        0 <= m <= n <= ss.len(),
    ensures
        context_indices(ss.take(m)).len() <= context_indices(ss.take(n)).len(),
        forall|k: int|
            0 <= k < context_indices(ss.take(m)).len() ==> #[trigger] context_indices(ss.take(n))[k]
                == context_indices(ss.take(m))[k],
    decreases n - m,
{
    if n > m {
        lemma_indices_prefix(ss, m, n - 1);
        assert(ss.take(n).drop_last() =~= ss.take(n - 1));
    }
}

/// The outcome of completing one struct whose fields are read: a plan, or the first
/// failure of reading the arguments, building the context, a name given to two fields, or
/// an account without a type.
pub open spec fn fields_planned(
    sname: Seq<char>,
    fs: Seq<StructFieldV>,
    defs: DefsView,
    res: Result<StructPlanV, DslErrorV>,
) -> bool {
    let names = field_names(fs);
    let props = struct_props(fs);
    let args_ok = forall|i: int| 0 <= i < fs.len() ==> #[trigger] field_args(fs[i]) is Some;
    match res {
        Ok(plan) => args_ok && !context_fails(props, defs) && names_distinct(names) && struct_completed(
            Some(plan),
            names,
            props,
            defs,
        ),
        Err(e) => {
            ||| exists|i: int|
                0 <= i < fs.len() && #[trigger] field_args(fs[i]) is None && (forall|j: int|
                    0 <= j < i ==> #[trigger] field_args(fs[j]) is Some) && e == DslErrorV::BadAccountAttr(fs[i].name)
            ||| args_ok && context_fails(props, defs) && (e matches DslErrorV::UndefinedAccount(n) && in_closure(
                n,
                props,
                defs,
            ) && lookup(defs, n) is None)
            ||| args_ok && !context_fails(props, defs) && !names_distinct(names) && e == DslErrorV::DuplicateField
            ||| args_ok && !context_fails(props, defs) && names_distinct(names) && struct_completed(
                None,
                names,
                props,
                defs,
            ) && e == DslErrorV::UntypedAccount(sname)
        },
    }
}

/// The outcome of completing one struct (see `fields_planned`).
pub open spec fn struct_outcome(m: ModuleStructV, defs: DefsView, res: Result<StructPlanV, DslErrorV>) -> bool {
    match module_fields(m) {
        Err(e) => res == Err::<StructPlanV, DslErrorV>(e),
        Ok(fs) => fields_planned(m.name, fs, defs, res),
    }
}

/// The structs of a module completed: a plan for each struct that carries `#[context]`, by
/// its position among the structs, in order; or the failure of the first that fails.
pub open spec fn module_planned(
    ss: Seq<ModuleStructV>,
    defs: DefsView,
    r: Result<Seq<(int, StructPlanV)>, DslErrorV>,
) -> bool {
    let idx = context_indices(ss);
    match r {
        Ok(plans) => plans.len() == idx.len() && forall|k: int|
            0 <= k < plans.len() ==> (#[trigger] plans[k]).0 == idx[k] && struct_outcome(
                ss[idx[k]],
                defs,
                Ok(plans[k].1),
            ),
        Err(e) => exists|k: int|
            0 <= k < idx.len() && #[trigger] struct_outcome(ss[idx[k]], defs, Err(e)) && forall|q: int|
                0 <= q < k ==> #[trigger] struct_succeeds(ss[idx[q]], defs),
    }
}

/// Completing the struct gives a plan.
pub open spec fn struct_succeeds(m: ModuleStructV, defs: DefsView) -> bool {
    exists|p: StructPlanV| #[trigger] struct_outcome(m, defs, Ok(p))
}

proof fn lemma_fails_at(ss: Seq<ModuleStructV>, defs: DefsView, k: int, e: DslErrorV)
    requires
        0 <= k < context_indices(ss).len(),
        struct_outcome(ss[context_indices(ss)[k]], defs, Err(e)),
        forall|q: int| 0 <= q < k ==> #[trigger] struct_succeeds(ss[context_indices(ss)[q]], defs),
    ensures
        module_planned(ss, defs, Err(e)),
{
}

pub open spec fn plans_view(r: Result<Vec<(usize, StructPlan)>, DslError>) -> Result<Seq<(int, StructPlanV)>, DslErrorV> {
    match r {
        Ok(v) => Ok(v@.map_values(|x: (usize, StructPlan)| (x.0 as int, x.1@))),
        Err(e) => Err(e@),
    }
}

/// Whether no two fields share a name.
fn fields_distinct(fs: &Vec<StructField>) -> (r: bool)
    ensures
        r == names_distinct(field_names(fields_view(fs@))),
{
    let ghost names = field_names(fields_view(fs@));
    let mut i: usize = 0;
    while i < fs.len()
        invariant
            i <= fs@.len(),
            names == field_names(fields_view(fs@)),
            forall|a: int, b: int| 0 <= a < b < names.len() && a < i ==> names[a] != names[b],
        decreases fs@.len() - i,
    {
        let mut j: usize = i + 1;
        while j < fs.len()
            invariant
                i < fs@.len(),
                i + 1 <= j <= fs@.len(),
                names == field_names(fields_view(fs@)),
                forall|a: int, b: int| 0 <= a < b < names.len() && a < i ==> names[a] != names[b],
                forall|b: int| i < b < j ==> names[i as int] != names[b],
            decreases fs@.len() - j,
        {
            assert(names[i as int] == fs@[i as int].name@);
            assert(names[j as int] == fs@[j as int].name@);
            if str_eq(fs[i].name.as_str(), fs[j].name.as_str()) {
                return false;
            }
            j = j + 1;
        }
        i = i + 1;
    }
    true
}

/// Plans the completion of a module's context structs from the account definitions.
/// `text` is the module as text; it fails with `NotAModule` when `syn` does not read it as
/// a module with its items inside.
pub fn plan_module(text: &str, account_defs: &YamlAccounts) -> (r: Result<Vec<(usize, StructPlan)>, DslError>)
    requires
        !crate::syntax::has_c_literal(text@),
        defs_wf(account_defs.0@),
    ensures
        match module_structs_of(text@) {
            None => r matches Err(DslError::NotAModule),
            Some(ss) => module_planned(ss, account_defs@, plans_view(r)),
        },
{
    let ss = match module_structs(text) {
        None => {
            return Err(DslError::NotAModule);
        },
        Some(s) => s,
    };
    let ghost sv = structs_view(ss@);
    let ghost defs = account_defs@;
    let mut out: Vec<(usize, StructPlan)> = Vec::new();
    let mut i: usize = 0;
    assert(sv.take(0) =~= Seq::<ModuleStructV>::empty());
    while i < ss.len()
        invariant
            i <= ss@.len(),
            sv == structs_view(ss@),
            module_structs_of(text@) == Some(sv),
            defs == account_defs@,
            defs_wf(account_defs.0@),
            out@.len() == context_indices(sv.take(i as int)).len(),
            forall|k: int|
                0 <= k < out@.len() ==> (#[trigger] out@[k]).0 as int == context_indices(sv.take(i as int))[k]
                    && struct_outcome(sv[out@[k].0 as int], defs, Ok(out@[k].1@)),
        decreases ss@.len() - i,
    {
        let ghost pre = context_indices(sv.take(i as int));
        assert(sv.take(i + 1).drop_last() =~= sv.take(i as int));
        assert(sv.take(i + 1).last() == sv[i as int]);
        assert(sv[i as int] == ss@[i as int]@);
        if context_marked(&ss[i]) {
            let ghost k = out@.len() as int;
            proof {
                lemma_indices_prefix(sv, i + 1, sv.len() as int);
                assert(sv.take(sv.len() as int) =~= sv);
                assert(context_indices(sv.take(i + 1)) == pre.push(i as int));
                assert(context_indices(sv)[k] == i as int);
                assert forall|q: int| 0 <= q < k implies #[trigger] struct_succeeds(sv[context_indices(sv)[q]], defs) by {
                    assert(context_indices(sv)[q] == context_indices(sv.take(i + 1))[q]);
                    assert(context_indices(sv.take(i + 1))[q] == pre[q]);
                    assert(out@[q].0 as int == context_indices(sv)[q]);
                    assert(struct_outcome(sv[context_indices(sv)[q]], defs, Ok(out@[q].1@)));
                }
            }
            let fs = match read_fields(&ss[i]) {
                Ok(f) => f,
                Err(e) => {
                    assert(struct_outcome(sv[context_indices(sv)[k]], defs, Err(e@)));
                    proof { lemma_fails_at(sv, defs, k, e@); }
                    return Err(e);
                },
            };
            let ghost fv = fields_view(fs@);
            let props = match read_struct(&fs) {
                Ok(p) => p,
                Err(e) => {
                    proof {
                        let w = choose|w: int|
                            0 <= w < fs@.len() && #[trigger] field_args(fs@[w]@) is None && (forall|j: int|
                                0 <= j < w ==> #[trigger] field_args(fs@[j]@) is Some) && (e matches DslError::BadAccountAttr(
                                n,
                            ) && n@ == fs@[w].name@);
                        assert(fv[w] == fs@[w]@);
                        assert forall|j: int| 0 <= j < w implies #[trigger] field_args(fv[j]) is Some by {
                            assert(fv[j] == fs@[j]@);
                        }
                    }
                    assert(fields_planned(sv[i as int].name, fv, defs, Err(e@)));
                    assert(struct_outcome(sv[context_indices(sv)[k]], defs, Err(e@)));
                    proof { lemma_fails_at(sv, defs, k, e@); }
                    return Err(e);
                },
            };
            match build_context(&props, account_defs) {
                Ok(_) => {},
                Err(e) => {
                    assert(fields_planned(sv[i as int].name, fv, defs, Err(e@)));
                    assert(struct_outcome(sv[context_indices(sv)[k]], defs, Err(e@)));
                    proof { lemma_fails_at(sv, defs, k, e@); }
                    return Err(e);
                },
            }
            if !fields_distinct(&fs) {
                assert(fields_planned(sv[i as int].name, fv, defs, Err(DslErrorV::DuplicateField)));
                assert(struct_outcome(sv[context_indices(sv)[k]], defs, Err(DslErrorV::DuplicateField)));
                    proof { lemma_fails_at(sv, defs, k, DslErrorV::DuplicateField); }
                return Err(DslError::DuplicateField);
            }
            match complete_struct(&fs, account_defs) {
                Ok(Some(plan)) => {
                    assert(fields_planned(sv[i as int].name, fv, defs, Ok(plan@)));
                    out.push((i, plan));
                },
                Ok(None) => {
                    let e = DslError::UntypedAccount(ss[i].name.clone());
                    assert(fields_planned(sv[i as int].name, fv, defs, Err(e@)));
                    assert(struct_outcome(sv[context_indices(sv)[k]], defs, Err(e@)));
                    proof { lemma_fails_at(sv, defs, k, e@); }
                    return Err(e);
                },
                Err(e) => {
                    assert(fields_planned(sv[i as int].name, fv, defs, Err(e@)));
                    assert(struct_outcome(sv[context_indices(sv)[k]], defs, Err(e@)));
                    proof { lemma_fails_at(sv, defs, k, e@); }
                    return Err(e);
                },
            }
            assert(context_indices(sv.take(i + 1)) == pre.push(i as int));
        } else {
            assert(context_indices(sv.take(i + 1)) =~= pre);
        }
        i = i + 1;
    }
    proof {
        assert(sv.take(sv.len() as int) =~= sv);
        let plans = plans_view(Ok::<Vec<(usize, StructPlan)>, DslError>(out))->Ok_0;
        assert forall|k: int| 0 <= k < plans.len() implies (#[trigger] plans[k]).0 == context_indices(sv)[k]
            && struct_outcome(sv[context_indices(sv)[k]], defs, Ok(plans[k].1)) by {
            assert(plans[k] == (out@[k].0 as int, out@[k].1@));
        }
    }
    Ok(out)
}

} // verus!
