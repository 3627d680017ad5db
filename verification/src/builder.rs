//! Building contexts: every account that a context names, or that a needed account
//! depends on, is built from its definition and the arguments the context gives it.

use crate::programs::{add_programs_to_context, spec_add_programs};
use crate::propsets::{DynStruct, PropItem, PropSet, NUM_KINDS, overlay, KIND_CONDITIONAL, KIND_DEPENDS, KIND_INIT, KIND_INIT_IF_NEEDED, KIND_MUT, KIND_NO_INIT, KIND_REAL_INIT};
use crate::text::str_eq;
use crate::token::{dup_tok_lists, strings_view, tok_lists_view, TokV, Tok};
use crate::types::{AccountArg, BuiltAccount, BuiltContext, BuiltContexts, ContextProp, ContextPropV, DslError, KeyedVec, LabelledProp, LabelledPropV, Mut, ParseAccountProps, ParseProp, ParsePropV, PropLabel, PropValue, PropValueV, RealAccountProps, RealAccountPropsSansInit, RealInit, RealView, SansView, YamlAccounts, YamlDoc, args_view, ctx_props_view, defs_wf, dup_args, key_index, keys_distinct, keys_of, lemma_key_index, lookup, real_props, word_label, lemma_sans_init_props};
use vstd::prelude::*;

verus! {

/// The abstract value of an account definition.
pub type ParseView = Seq<Option<ParsePropV>>;

/// The abstract value of a list of account definitions.
pub type DefsView = Seq<(Seq<char>, ParseView)>;

/// No property in any slot.
pub open spec fn empty_slots<V>() -> Seq<Option<V>> {
    Seq::new(NUM_KINDS as nat, |k: int| None::<V>)
}

/// A plain property in a slot of a definition.
pub open spec fn plain_slot(p: Option<ParsePropV>) -> Option<LabelledPropV> {
    match p {
        Some(ParsePropV::Plain(o)) => Some(o),
        _ => None,
    }
}

/// The properties held under `init:` or `noinit:` in a slot of a definition.
pub open spec fn nested_slot(p: Option<ParsePropV>) -> SansView {
    match p {
        Some(ParsePropV::Init(_, d)) => d,
        Some(ParsePropV::NoInit(_, d)) => d,
        _ => empty_slots(),
    }
}

/// The properties an `if <arg>:` clause selects for the given account arguments.
pub open spec fn cond_slot(p: Option<ParsePropV>, args: Seq<Seq<char>>) -> SansView {
    match p {
        Some(ParsePropV::Conditional(_, c)) => if args.contains(c.arg) {
            c.if_props
        } else {
            c.else_props
        },
        _ => empty_slots(),
    }
}

/// The names an account definition depends on.
pub open spec fn depends_of(def: ParseView) -> Seq<Seq<char>> {
    match def[KIND_DEPENDS as int] {
        Some(ParsePropV::Depends(_, l)) => l,
        _ => seq![],
    }
}

/// The properties that the `init:`/`noinit:` and `if` clauses add: the `init:` ones when
/// the account is initialised, the `noinit:` ones otherwise, then the `if` clause's choice.
pub open spec fn added_props(def: ParseView, args: Seq<Seq<char>>) -> SansView {
    let base = if args.contains("init"@) {
        nested_slot(def[KIND_INIT as int])
    } else {
        nested_slot(def[KIND_NO_INIT as int])
    };
    overlay(base, cond_slot(def[KIND_CONDITIONAL as int], args))
}

/// The plain properties that carry over: all of the shared kinds, and `init_if_needed`
/// unless the account is initialised.
pub open spec fn plain_props(def: ParseView, is_init: bool) -> RealView {
    Seq::new(
        NUM_KINDS as nat,
        |k: int|
            if k < 18 || (k == KIND_INIT_IF_NEEDED && !is_init) {
                plain_slot(def[k])
            } else {
                None
            },
    )
}

/// A property with no value.
pub open spec fn marker(kind: nat, label: Seq<char>) -> LabelledPropV {
    LabelledPropV { label: word_label(label), kind, value: PropValueV::Unit }
}

/// The properties of an account built from a definition with the given arguments: the
/// carried-over plain properties, overridden by the added ones, then `init` and `mut`
/// from the arguments.
pub open spec fn spec_build_account(def: ParseView, args: Seq<Seq<char>>) -> RealView {
    let is_init = args.contains("init"@);
    let out = overlay(plain_props(def, is_init), added_props(def, args));
    let out = if is_init {
        out.update(KIND_REAL_INIT as int, Some(marker(KIND_REAL_INIT as nat, "init"@)))
    } else {
        out
    };
    if args.contains("mut"@) {
        out.update(KIND_MUT as int, Some(marker(KIND_MUT as nat, "mut"@)))
    } else {
        out
    }
}

/// The accounts a context still has to build, with the arguments it gives them.
pub type ContextDependencies = KeyedVec<Vec<AccountArg>>;

/// Whether the arguments include `a`.
pub fn has_arg(args: &Vec<AccountArg>, a: &str) -> (r: bool)
    ensures
        r == args_view(args@).contains(a@),
{
    let mut i: usize = 0;
    while i < args.len()
        invariant
            i <= args@.len(),
            forall|j: int| 0 <= j < i ==> args_view(args@)[j] != a@,
        decreases args@.len() - i,
    {
        if str_eq(args[i].0.as_str(), a) {
            assert(args_view(args@)[i as int] == a@);
            return true;
        }
        i = i + 1;
    }
    false
}

proof fn lemma_overlay_empty<V>(x: Seq<Option<V>>)
    requires
        x.len() == NUM_KINDS,
    ensures
        overlay(empty_slots::<V>(), x) == x,
        overlay(x, empty_slots::<V>()) == x,
{
    assert(overlay(empty_slots::<V>(), x) =~= x);
    assert(overlay(x, empty_slots::<V>()) =~= x);
}

/// Builds one account from its definition and the arguments the context gives it; the
/// names it depends on are added to `dependencies` (with no arguments) unless present.
fn build_account(
    account: &DynStruct<ParseAccountProps>,
    args: &Vec<AccountArg>,
    dependencies: &mut ContextDependencies,
) -> (r: BuiltAccount)
    requires
        account.wf(),
        keys_distinct(old(dependencies)@),
    ensures
        r.wf(),
        r@ == spec_build_account(account@, args_view(args@)),
        keys_distinct(final(dependencies)@),
        final(dependencies)@.len() >= old(dependencies)@.len(),
        forall|j: int| 0 <= j < old(dependencies)@.len() ==> #[trigger] final(dependencies)@[j] == old(dependencies)@[j],
        forall|j: int|
            old(dependencies)@.len() <= j < final(dependencies)@.len() ==> depends_of(account@).contains(
                (#[trigger] final(dependencies)@[j]).0,
            ) && final(dependencies)@[j].1 == Seq::<AccountArg>::empty()
                && !keys_of(old(dependencies)@).contains(final(dependencies)@[j].0),
        forall|d: Seq<char>| #[trigger] depends_of(account@).contains(d) ==> keys_of(final(dependencies)@).contains(d),
{
    proof {
        account.lemma_wf();
    }
    let is_init = has_arg(args, "init");
    let is_mut = has_arg(args, "mut");
    let ghost argv = args_view(args@);
    let ghost def = account@;

    // Plain properties.
    let mut out = DynStruct::<RealAccountProps>::new();
    let mut k: usize = 0;
    while k < 18
        invariant
            k <= 18,
            account.wf(),
            def == account@,
            def.len() == NUM_KINDS,
            out.wf(),
            out@.len() == NUM_KINDS,
            forall|j: int| 0 <= j < k ==> #[trigger] out@[j] == plain_slot(def[j]),
            forall|j: int| k <= j < NUM_KINDS ==> #[trigger] out@[j] is None,
        decreases 18 - k,
    {
        assert(real_props()[k as int] == k);
        match account.get_dyn(k) {
            Some(ParseProp::Plain(o)) => {
                out.insert_dyn(o.dup());
            },
            _ => {},
        }
        proof {
            out.lemma_wf();
        }
        k = k + 1;
    }
    if !is_init {
        assert(real_props()[19] == KIND_INIT_IF_NEEDED);
        match account.get_dyn(KIND_INIT_IF_NEEDED) {
            Some(ParseProp::Plain(o)) => {
                out.insert_dyn(o.dup());
            },
            _ => {},
        }
    }
    assert(out@ =~= plain_props(def, is_init));

    // Properties added by `init:`, `noinit:` and `if`.
    let mut added = DynStruct::<RealAccountPropsSansInit>::new();
    proof {
        lemma_overlay_empty(added@);
    }
    if is_init {
        match account.get_dyn(KIND_INIT) {
            Some(ParseProp::Init(_, d)) => {
                added.update(d.dup());
                proof {
                    d.lemma_wf();
                    lemma_overlay_empty(d@);
                }
            },
            _ => {},
        }
    } else {
        match account.get_dyn(KIND_NO_INIT) {
            Some(ParseProp::NoInit(_, d)) => {
                added.update(d.dup());
                proof {
                    d.lemma_wf();
                    lemma_overlay_empty(d@);
                }
            },
            _ => {},
        }
    }
    let ghost base = added@;
    assert(base == (if argv.contains("init"@) {
        nested_slot(def[KIND_INIT as int])
    } else {
        nested_slot(def[KIND_NO_INIT as int])
    }));
    proof {
        added.lemma_wf();
        lemma_overlay_empty(base);
    }
    match account.get_dyn(KIND_CONDITIONAL) {
        Some(ParseProp::Conditional(_, c)) => {
            let y = has_arg(args, c.arg.0.as_str());
            if y {
                added.update(c._if.dup());
            } else {
                added.update(c._else.dup());
            }
        },
        _ => {},
    }
    assert(added@ == added_props(def, argv));

    // Dependencies.
    let ghost old_deps = dependencies@;
    match account.get_dyn(KIND_DEPENDS) {
        Some(ParseProp::Depends(_, list)) => {
            let mut i: usize = 0;
            while i < list.len()
                invariant
                    i <= list@.len(),
                    strings_view(list@) == depends_of(def),
                    keys_distinct(dependencies@),
                    dependencies@.len() >= old_deps.len(),
                    forall|j: int| 0 <= j < old_deps.len() ==> #[trigger] dependencies@[j] == old_deps[j],
                    forall|j: int|
                        old_deps.len() <= j < dependencies@.len() ==> depends_of(def).contains(
                            (#[trigger] dependencies@[j]).0,
                        ) && dependencies@[j].1 == Seq::<AccountArg>::empty() && !keys_of(old_deps).contains(
                            dependencies@[j].0,
                        ),
                    forall|m: int| 0 <= m < i ==> keys_of(dependencies@).contains(#[trigger] depends_of(def)[m]),
                decreases list@.len() - i,
            {
                let ghost pre = dependencies@;
                let name = list[i].clone();
                assert(name@ == depends_of(def)[i as int]);
                if !dependencies.has(name.as_str()) {
                    let _ = dependencies.insert(name, Vec::new());
                    proof {
                        assert(dependencies@ == pre.push((depends_of(def)[i as int], Seq::<AccountArg>::empty())));
                        assert forall|m: int| 0 <= m < i + 1 implies keys_of(dependencies@).contains(
                            #[trigger] depends_of(def)[m],
                        ) by {
                            if m < i {
                                let w = choose|w: int| 0 <= w < pre.len() && keys_of(pre)[w] == depends_of(def)[m];
                                assert(keys_of(dependencies@)[w] == depends_of(def)[m]);
                            } else {
                                assert(keys_of(dependencies@)[pre.len() as int] == depends_of(def)[m]);
                            }
                        }
                        assert(keys_distinct(dependencies@)) by {
                            assert forall|a: int, b: int| 0 <= a < b < dependencies@.len() implies dependencies@[a].0
                                != dependencies@[b].0 by {
                                if b == pre.len() {
                                    assert(keys_of(pre)[a] == pre[a].0);
                                }
                            }
                        }
                        assert forall|j: int| old_deps.len() <= j < dependencies@.len() implies depends_of(def).contains(
                            (#[trigger] dependencies@[j]).0,
                        ) && dependencies@[j].1 == Seq::<AccountArg>::empty() && !keys_of(old_deps).contains(
                            dependencies@[j].0,
                        ) by {
                            if j == pre.len() {
                                assert(depends_of(def)[i as int] == dependencies@[j].0);
                                if keys_of(old_deps).contains(dependencies@[j].0) {
                                    let w = choose|w: int| 0 <= w < old_deps.len() && keys_of(old_deps)[w] == dependencies@[j].0;
                                    assert(keys_of(pre)[w] == dependencies@[j].0);
                                }
                            }
                        }
                    }
                }
                i = i + 1;
            }
        },
        _ => {
            assert(depends_of(def) == Seq::<Seq<char>>::empty());
        },
    }

    // Added properties override the plain ones.
    let ghost plain = out@;
    proof {
        added.lemma_wf();
        out.lemma_wf();
        lemma_sans_init_props();
    }
    let mut k: usize = 0;
    while k < 18
        invariant
            k <= 18,
            added.wf(),
            out.wf(),
            plain.len() == NUM_KINDS,
            out@.len() == NUM_KINDS,
            added@.len() == NUM_KINDS,
            forall|j: int| 18 <= j < NUM_KINDS ==> (#[trigger] added@[j]) is None,
            forall|j: int| 0 <= j < k ==> #[trigger] out@[j] == overlay(plain, added@)[j],
            forall|j: int| k <= j < NUM_KINDS ==> #[trigger] out@[j] == plain[j],
        decreases 18 - k,
    {
        assert(real_props()[k as int] == k);
        match added.get_dyn(k) {
            Some(p) => {
                out.insert_dyn(p.dup());
            },
            None => {},
        }
        proof {
            out.lemma_wf();
        }
        k = k + 1;
    }
    assert(out@ =~= overlay(plain, added@));

    assert(real_props()[18] == KIND_REAL_INIT);
    assert(real_props()[20] == KIND_MUT);
    if is_init {
        out.insert::<RealInit>(
            LabelledProp { label: PropLabel::from_str("init"), kind: KIND_REAL_INIT, value: PropValue::Unit },
        );
    }
    if is_mut {
        out.insert::<Mut>(
            LabelledProp { label: PropLabel::from_str("mut"), kind: KIND_MUT, value: PropValue::Unit },
        );
    }
    BuiltAccount(out)
}

/// The line `p` is an account line naming `n`.
pub open spec fn names_account(p: ContextPropV, n: Seq<char>) -> bool {
    p matches ContextPropV::Account { name, .. } && name == n
}

/// The context has an account line naming `n`.
pub open spec fn is_ctx_account(props: Seq<ContextPropV>, n: Seq<char>) -> bool {
    exists|i: int| 0 <= i < props.len() && #[trigger] names_account(props[i], n)
}

/// The arguments of the last account line naming `n`.
pub open spec fn last_args(props: Seq<ContextPropV>, n: Seq<char>) -> Option<Seq<Seq<char>>>
    decreases props.len(),
{
    if props.len() == 0 {
        None
    } else {
        match props.last() {
            ContextPropV::Account { name, args } => if name == n {
                Some(args)
            } else {
                last_args(props.drop_last(), n)
            },
            _ => last_args(props.drop_last(), n),
        }
    }
}

/// The arguments the context gives the account `n`: those of its last line, or none.
pub open spec fn account_args(props: Seq<ContextPropV>, n: Seq<char>) -> Seq<Seq<char>> {
    match last_args(props, n) {
        Some(a) => a,
        None => seq![],
    }
}

/// The arguments of the last instruction line.
pub open spec fn instruction_of(props: Seq<ContextPropV>) -> Option<Seq<Seq<TokV>>>
    decreases props.len(),
{
    if props.len() == 0 {
        None
    } else {
        match props.last() {
            ContextPropV::Instruction { args } => Some(args),
            _ => instruction_of(props.drop_last()),
        }
    }
}

/// A set of names that holds every account the context names and, with every defined
/// account, each name that account depends on.
pub open spec fn dep_closed(c: Set<Seq<char>>, props: Seq<ContextPropV>, defs: DefsView) -> bool {
    &&& forall|n: Seq<char>| is_ctx_account(props, n) ==> #[trigger] c.contains(n)
    &&& forall|n: Seq<char>, d: Seq<char>|
        #![trigger c.contains(n), c.contains(d)]
        c.contains(n) && lookup(defs, n) is Some && depends_of(lookup(defs, n)->0).contains(d)
            ==> c.contains(d)
}

/// `n` is needed by the context: it lies in every such set, that is, it is named by the
/// context or reached from a named account through definitions and their dependencies.
pub open spec fn in_closure(n: Seq<char>, props: Seq<ContextPropV>, defs: DefsView) -> bool {
    forall|c: Set<Seq<char>>| dep_closed(c, props, defs) ==> #[trigger] c.contains(n)
}

/// The accounts of a context as built: exactly the needed names, each once, each built from
/// its definition with the arguments the context gives it.
pub open spec fn built_accounts_ok(
    accs: Seq<(Seq<char>, RealView)>,
    props: Seq<ContextPropV>,
    defs: DefsView,
) -> bool {
    &&& keys_distinct(accs)
    &&& forall|n: Seq<char>| #[trigger] keys_of(accs).contains(n) <==> in_closure(n, props, defs)
    &&& forall|j: int|
        0 <= j < accs.len() ==> lookup(defs, (#[trigger] accs[j]).0) is Some && accs[j].1
            == spec_build_account(lookup(defs, accs[j].0)->0, account_args(props, accs[j].0))
}

/// The names of the account lines, in order.
pub open spec fn ctx_name_list(props: Seq<ContextPropV>) -> Seq<Seq<char>>
    decreases props.len(),
{
    if props.len() == 0 {
        seq![]
    } else {
        let rest = ctx_name_list(props.drop_last());
        match props.last() {
            ContextPropV::Account { name, .. } => rest.push(name),
            _ => rest,
        }
    }
}

/// Every name that some definition depends on, in order.
pub open spec fn all_deps(defs: DefsView) -> Seq<Seq<char>>
    decreases defs.len(),
{
    if defs.len() == 0 {
        seq![]
    } else {
        all_deps(defs.drop_last()) + depends_of(defs.last().1)
    }
}

proof fn lemma_ctx_name_list(props: Seq<ContextPropV>, n: Seq<char>)
    requires
        is_ctx_account(props, n),
    ensures
        ctx_name_list(props).contains(n),
    decreases props.len(),
{
    let i = choose|i: int| 0 <= i < props.len() && #[trigger] names_account(props[i], n);
    if i == props.len() - 1 {
        assert(ctx_name_list(props).last() == n);
    } else {
        assert(names_account(props.drop_last()[i], n));
        lemma_ctx_name_list(props.drop_last(), n);
        let w = choose|w: int| 0 <= w < ctx_name_list(props.drop_last()).len() && ctx_name_list(props.drop_last())[w] == n;
        assert(ctx_name_list(props)[w] == n);
    }
}

proof fn lemma_all_deps(defs: DefsView, j: int, d: Seq<char>)
    requires
        0 <= j < defs.len(),
        depends_of(defs[j].1).contains(d),
    ensures
        all_deps(defs).contains(d),
    decreases defs.len(),
{
    let w = choose|w: int| 0 <= w < depends_of(defs[j].1).len() && depends_of(defs[j].1)[w] == d;
    if j == defs.len() - 1 {
        assert(all_deps(defs)[all_deps(defs.drop_last()).len() + w] == d);
    } else {
        assert(defs.drop_last()[j] == defs[j]);
        lemma_all_deps(defs.drop_last(), j, d);
        let v = choose|v: int| 0 <= v < all_deps(defs.drop_last()).len() && all_deps(defs.drop_last())[v] == d;
        assert(all_deps(defs)[v] == d);
    }
}

/// The dependencies of a defined account lie in `all_deps`.
proof fn lemma_lookup_deps(defs: DefsView, n: Seq<char>, d: Seq<char>)
    requires
        lookup(defs, n) is Some,
        depends_of(lookup(defs, n)->0).contains(d),
    ensures
        all_deps(defs).contains(d),
{
    lemma_key_index(defs, n);
    let j = key_index(defs, n)->0;
    lemma_all_deps(defs, j as int, d);
}

/// A list of distinct names drawn from `u` is no longer than `u`.
proof fn lemma_distinct_len(d: Seq<Seq<char>>, u: Seq<Seq<char>>)
    requires
        d.no_duplicates(),
        forall|i: int| 0 <= i < d.len() ==> u.contains(#[trigger] d[i]),
    ensures
        d.len() <= u.len(),
{
    d.unique_seq_to_set();
    u.lemma_cardinality_of_set();
    assert(d.to_set().subset_of(u.to_set())) by {
        assert forall|x: Seq<char>| d.to_set().contains(x) implies u.to_set().contains(x) by {
            let i = choose|i: int| 0 <= i < d.len() && d[i] == x;
            assert(u.contains(d[i]));
        }
    }
    vstd::set_lib::lemma_len_subset(d.to_set(), u.to_set());
}

proof fn lemma_keys_no_dup<V>(v: Seq<(Seq<char>, V)>)
    requires
        keys_distinct(v),
    ensures
        keys_of(v).no_duplicates(),
{
}

/// The account lines, collected by name (a later line for the same name replaces its
/// arguments), and the arguments of the last instruction line.
fn context_dependencies(props: &Vec<ContextProp>) -> (r: (ContextDependencies, Option<Vec<Vec<Tok>>>))
    ensures
        keys_distinct(r.0@),
        forall|n: Seq<char>| #[trigger] keys_of(r.0@).contains(n) <==> is_ctx_account(ctx_props_view(props@), n),
        forall|j: int|
            0 <= j < r.0@.len() ==> args_view((#[trigger] r.0@[j]).1) == account_args(ctx_props_view(props@), r.0@[j].0),
        match r.1 {
            Some(a) => instruction_of(ctx_props_view(props@)) == Some(tok_lists_view(a@)),
            None => instruction_of(ctx_props_view(props@)) is None,
        },
{
    let ghost pv = ctx_props_view(props@);
    let mut deps: ContextDependencies = KeyedVec::new();
    let mut instruction: Option<Vec<Vec<Tok>>> = None;
    let mut i: usize = 0;
    while i < props.len()
        invariant
            i <= props@.len(),
            pv == ctx_props_view(props@),
            keys_distinct(deps@),
            forall|n: Seq<char>| #[trigger] keys_of(deps@).contains(n) <==> is_ctx_account(pv.take(i as int), n),
            forall|j: int|
                0 <= j < deps@.len() ==> args_view((#[trigger] deps@[j]).1) == account_args(pv.take(i as int), deps@[j].0),
            match instruction {
                Some(a) => instruction_of(pv.take(i as int)) == Some(tok_lists_view(a@)),
                None => instruction_of(pv.take(i as int)) is None,
            },
        decreases props@.len() - i,
    {
        let ghost pre = deps@;
        let ghost next = pv.take(i + 1);
        assert(next.drop_last() == pv.take(i as int));
        assert(next.last() == pv[i as int]);
        match &props[i] {
            ContextProp::Instruction { args } => {
                instruction = Some(dup_tok_lists(args));
                assert forall|n: Seq<char>| is_ctx_account(next, n) implies is_ctx_account(pv.take(i as int), n) by {
                    let w = choose|w: int| 0 <= w < next.len() && #[trigger] names_account(next[w], n);
                    assert(names_account(pv.take(i as int)[w], n));
                }
                assert forall|n: Seq<char>| is_ctx_account(pv.take(i as int), n) implies is_ctx_account(next, n) by {
                    let w = choose|w: int| 0 <= w < i && #[trigger] names_account(pv.take(i as int)[w], n);
                    assert(names_account(next[w], n));
                }
            },
            ContextProp::Account { name, args } => {
                let a = dup_args(args);
                let ghost mut at: int = 0;
                match deps.position(name.as_str()) {
                    Some(idx) => {
                        proof {
                            lemma_key_index(deps@, name@);
                        }
                        let key = deps.0[idx].0.clone();
                        deps.0.set(idx, (key, a));
                        assert(deps@ =~= pre.update(idx as int, (name@, deps@[idx as int].1)));
                        proof {
                            at = idx as int;
                        }
                    },
                    None => {
                        proof {
                            lemma_key_index(deps@, name@);
                        }
                        deps.0.push((name.clone(), a));
                        assert(deps@ =~= pre.push((name@, deps@[pre.len() as int].1)));
                        proof {
                            at = pre.len() as int;
                        }
                    },
                }
                assert(names_account(next[i as int], name@));
                assert forall|n: Seq<char>| #[trigger] keys_of(deps@).contains(n) <==> is_ctx_account(next, n) by {
                    if keys_of(deps@).contains(n) && n != name@ {
                        let w = choose|w: int| 0 <= w < deps@.len() && keys_of(deps@)[w] == n;
                        assert(keys_of(pre)[w] == n);
                        assert(keys_of(pre).contains(n));
                        assert(is_ctx_account(pv.take(i as int), n));
                        let v = choose|v: int| 0 <= v < i && #[trigger] names_account(pv.take(i as int)[v], n);
                        assert(names_account(next[v], n));
                    }
                    if is_ctx_account(next, n) && n != name@ {
                        let v = choose|v: int| 0 <= v < next.len() && #[trigger] names_account(next[v], n);
                        assert(names_account(pv.take(i as int)[v], n));
                        assert(is_ctx_account(pv.take(i as int), n));
                        assert(keys_of(pre).contains(n));
                        let w = choose|w: int| 0 <= w < pre.len() && keys_of(pre)[w] == n;
                        assert(keys_of(deps@)[w] == n);
                    }
                    if n == name@ {
                        assert(keys_of(deps@)[at] == n);
                    }
                }
                assert(keys_distinct(deps@));
            },
        }
        i = i + 1;
    }
    assert(pv.take(props@.len() as int) == pv);
    (deps, instruction)
}

/// Builds every account the context needs, in the order in which they are found.
fn collect_accounts(props: &Vec<ContextProp>, account_defs: &YamlAccounts) -> (r: Result<
    KeyedVec<BuiltAccount>,
    DslError,
>)
    requires
        defs_wf(account_defs.0@),
    ensures
        match r {
            Ok(accs) => {
                &&& built_accounts_ok(accs@, ctx_props_view(props@), account_defs@)
                &&& forall|j: int| 0 <= j < accs.0@.len() ==> (#[trigger] accs.0@[j]).1.wf()
            },
            Err(e) => e matches DslError::UndefinedAccount(n) && in_closure(
                n@,
                ctx_props_view(props@),
                account_defs@,
            ) && lookup(account_defs@, n@) is None,
        },
{
    let ghost pv = ctx_props_view(props@);
    let ghost defs = account_defs@;
    let (mut deps, _) = context_dependencies(props);
    let ghost u = ctx_name_list(pv) + all_deps(defs);
    proof {
        assert forall|j: int| 0 <= j < deps@.len() implies u.contains(#[trigger] deps@[j].0) by {
            assert(keys_of(deps@)[j] == deps@[j].0);
            assert(keys_of(deps@).contains(deps@[j].0));
            lemma_ctx_name_list(pv, deps@[j].0);
            let w = choose|w: int| 0 <= w < ctx_name_list(pv).len() && ctx_name_list(pv)[w] == deps@[j].0;
            assert(u[w] == deps@[j].0);
        }
        assert forall|j: int| 0 <= j < deps@.len() implies in_closure(#[trigger] deps@[j].0, pv, defs) by {
            assert(keys_of(deps@)[j] == deps@[j].0);
            assert(keys_of(deps@).contains(deps@[j].0));
            assert(is_ctx_account(pv, deps@[j].0));
            assert forall|c: Set<Seq<char>>| dep_closed(c, pv, defs) implies #[trigger] c.contains(deps@[j].0) by {
            }
        }
    }
    let mut accounts: KeyedVec<BuiltAccount> = KeyedVec::new();
    assert(accounts@.len() == accounts.0@.len());
    let mut i: usize = 0;
    loop
        invariant
            u == ctx_name_list(pv) + all_deps(defs),
            defs_wf(account_defs.0@),
            defs == account_defs@,
            pv == ctx_props_view(props@),
            i <= deps@.len(),
            keys_distinct(deps@),
            forall|j: int| 0 <= j < deps@.len() ==> u.contains(#[trigger] deps@[j].0),
            forall|j: int| 0 <= j < deps@.len() ==> in_closure(#[trigger] deps@[j].0, pv, defs),
            forall|n: Seq<char>| is_ctx_account(pv, n) ==> #[trigger] keys_of(deps@).contains(n),
            forall|j: int|
                0 <= j < i ==> lookup(defs, (#[trigger] deps@[j]).0) is Some && forall|d: Seq<char>|
                    depends_of(lookup(defs, deps@[j].0)->0).contains(d) ==> #[trigger] keys_of(deps@).contains(d),
            forall|j: int| 0 <= j < deps@.len() ==> args_view((#[trigger] deps@[j]).1) == account_args(pv, deps@[j].0),
            accounts@.len() == i,
            forall|j: int| 0 <= j < i ==> (#[trigger] accounts@[j]).0 == deps@[j].0,
            forall|j: int|
                0 <= j < i ==> (#[trigger] accounts@[j]).1 == spec_build_account(
                    lookup(defs, deps@[j].0)->0,
                    account_args(pv, deps@[j].0),
                ),
            forall|j: int| 0 <= j < accounts.0@.len() ==> (#[trigger] accounts.0@[j]).1.wf(),
        ensures
            i >= deps@.len(),
            i <= deps@.len(),
        decreases u.len() - i,
    {
        proof {
            lemma_keys_no_dup(deps@);
            assert forall|j: int| 0 <= j < keys_of(deps@).len() implies u.contains(#[trigger] keys_of(deps@)[j]) by {
                assert(keys_of(deps@)[j] == deps@[j].0);
            }
            lemma_distinct_len(keys_of(deps@), u);
        }
        if i >= deps.0.len() {
            break;
        }
        let name = deps.0[i].0.clone();
        let args = dup_args(&deps.0[i].1);
        assert(name@ == deps@[i as int].0);
        let pos = account_defs.position(name.as_str());
        proof {
            lemma_key_index(defs, name@);
        }
        match pos {
            None => {
                return Err(DslError::UndefinedAccount(name));
            },
            Some(idx) => {
                let ghost pre = deps@;
                let def = &account_defs.0[idx].1;
                assert(def.wf());
                assert(def@ == lookup(defs, name@)->0);
                let acc = build_account(def, &args, &mut deps);
                let ghost accv = acc@;
                let ghost pre_acc = accounts@;
                accounts.0.push((name, acc));
                proof {
                    assert(accounts@ =~= pre_acc.push((deps@[i as int].0, accv)));
                    assert forall|j: int| pre.len() <= j < deps@.len() implies in_closure(#[trigger] deps@[j].0, pv, defs)
                        && u.contains(deps@[j].0) && args_view(deps@[j].1) == account_args(pv, deps@[j].0) by {
                        let d = deps@[j].0;
                        assert(depends_of(def@).contains(d));
                        assert forall|c: Set<Seq<char>>| dep_closed(c, pv, defs) implies #[trigger] c.contains(d) by {
                            assert(in_closure(pre[i as int].0, pv, defs));
                            assert(c.contains(pre[i as int].0));
                        }
                        lemma_lookup_deps(defs, name@, d);
                        let w = choose|w: int| 0 <= w < all_deps(defs).len() && all_deps(defs)[w] == d;
                        assert(u[ctx_name_list(pv).len() + w] == all_deps(defs)[w]);
                        assert(u.contains(d));
                        if is_ctx_account(pv, d) {
                            assert(keys_of(pre).contains(d));
                        }
                        assert(last_args(pv, d) is None) by {
                            if last_args(pv, d) is Some {
                                lemma_last_args_names(pv, d);
                            }
                        }
                        assert(args_view(deps@[j].1) =~= Seq::<Seq<char>>::empty());
                    }
                    assert forall|n: Seq<char>| is_ctx_account(pv, n) implies #[trigger] keys_of(deps@).contains(n) by {
                        assert(keys_of(pre).contains(n));
                        let w = choose|w: int| 0 <= w < pre.len() && keys_of(pre)[w] == n;
                        assert(keys_of(deps@)[w] == n);
                    }
                    assert forall|j: int|
                        0 <= j < i + 1 implies lookup(defs, (#[trigger] deps@[j]).0) is Some && forall|d: Seq<char>|
                        depends_of(lookup(defs, deps@[j].0)->0).contains(d) ==> #[trigger] keys_of(deps@).contains(d) by {
                        if j < i {
                            assert(deps@[j] == pre[j]);
                            assert forall|d: Seq<char>| depends_of(lookup(defs, deps@[j].0)->0).contains(d) implies #[trigger] keys_of(
                                deps@,
                            ).contains(d) by {
                                assert(keys_of(pre).contains(d));
                                let w = choose|w: int| 0 <= w < pre.len() && keys_of(pre)[w] == d;
                                assert(keys_of(deps@)[w] == d);
                            }
                        }
                    }
                }
            },
        }
        i = i + 1;
    }
    proof {
        let c = Set::new(|n: Seq<char>| keys_of(deps@).contains(n));
        assert(dep_closed(c, pv, defs)) by {
            assert forall|n: Seq<char>, d: Seq<char>|
                #![trigger c.contains(n), c.contains(d)]
                c.contains(n) && lookup(defs, n) is Some && depends_of(lookup(defs, n)->0).contains(d)
                    implies c.contains(d) by {
                let w = choose|w: int| 0 <= w < deps@.len() && keys_of(deps@)[w] == n;
                assert(deps@[w].0 == n);
            }
        }
        assert forall|n: Seq<char>| #[trigger] keys_of(accounts@).contains(n) <==> in_closure(n, pv, defs) by {
            if in_closure(n, pv, defs) {
                assert(c.contains(n));
                let w = choose|w: int| 0 <= w < deps@.len() && keys_of(deps@)[w] == n;
                assert(keys_of(accounts@)[w] == n);
            }
            if keys_of(accounts@).contains(n) {
                let w = choose|w: int| 0 <= w < accounts@.len() && keys_of(accounts@)[w] == n;
                assert(deps@[w].0 == n);
            }
        }
        assert(keys_distinct(accounts@)) by {
            assert forall|a: int, b: int| 0 <= a < b < accounts@.len() implies accounts@[a].0 != accounts@[b].0 by {
                assert(accounts@[a].0 == deps@[a].0);
                assert(accounts@[b].0 == deps@[b].0);
            }
        }
    }
    Ok(accounts)
}

/// An account with recorded arguments is named by an account line.
proof fn lemma_last_args_names(props: Seq<ContextPropV>, n: Seq<char>)
    requires
        last_args(props, n) is Some,
    ensures
        is_ctx_account(props, n),
    decreases props.len(),
{
    if props.len() > 0 {
        match props.last() {
            ContextPropV::Account { name, args } => {
                if name == n {
                    assert(names_account(props[props.len() - 1], n));
                } else {
                    lemma_last_args_names(props.drop_last(), n);
                    let w = choose|w: int| 0 <= w < props.drop_last().len() && #[trigger] names_account(props.drop_last()[w], n);
                    assert(names_account(props[w], n));
                }
            },
            _ => {
                lemma_last_args_names(props.drop_last(), n);
                let w = choose|w: int| 0 <= w < props.drop_last().len() && #[trigger] names_account(props.drop_last()[w], n);
                assert(names_account(props[w], n));
            },
        }
    }
}

/// The accounts of a context: those it needs, as built, with the program accounts added.
pub open spec fn context_accounts_ok(
    accounts: Seq<(Seq<char>, RealView)>,
    props: Seq<ContextPropV>,
    defs: DefsView,
) -> bool {
    exists|accs: Seq<(Seq<char>, RealView)>|
        built_accounts_ok(accs, props, defs) && accounts == #[trigger] spec_add_programs(accs)
}

/// Some account the context needs has no definition.
pub open spec fn context_fails(props: Seq<ContextPropV>, defs: DefsView) -> bool {
    exists|n: Seq<char>| in_closure(n, props, defs) && #[trigger] lookup(defs, n) is None
}

/// Builds one context: its accounts (see `context_accounts_ok`) and the arguments of its
/// last instruction line.  Fails, naming the account, when a needed account is not defined.
pub fn build_context(props: &Vec<ContextProp>, account_defs: &YamlAccounts) -> (r: Result<BuiltContext, DslError>)
    requires
        defs_wf(account_defs.0@),
    ensures
        match r {
            Ok(ctx) => {
                &&& ctx.wf()
                &&& context_accounts_ok(ctx@.accounts, ctx_props_view(props@), account_defs@)
                &&& ctx@.instruction == instruction_of(ctx_props_view(props@))
                &&& !context_fails(ctx_props_view(props@), account_defs@)
            },
            Err(e) => {
                &&& e matches DslError::UndefinedAccount(n) && in_closure(n@, ctx_props_view(props@), account_defs@)
                    && lookup(account_defs@, n@) is None
                &&& context_fails(ctx_props_view(props@), account_defs@)
            },
        },
{
    let ghost pv = ctx_props_view(props@);
    let (_, instruction) = context_dependencies(props);
    match collect_accounts(props, account_defs) {
        Err(e) => {
            Err(e)
        },
        Ok(accounts) => {
            let mut accounts = accounts;
            let ghost accs = accounts@;
            add_programs_to_context(&mut accounts);
            proof {
                assert(built_accounts_ok(accs, pv, account_defs@) && accounts@ == spec_add_programs(accs));
                assert forall|n: Seq<char>| in_closure(n, pv, account_defs@) implies #[trigger] lookup(account_defs@, n) is Some by {
                    assert(keys_of(accs).contains(n));
                    let w = choose|w: int| 0 <= w < accs.len() && keys_of(accs)[w] == n;
                    assert(accs[w].0 == n);
                }
            }
            Ok(BuiltContext { accounts, instruction })
        },
    }
}

/// Builds every context of a document, in order; the first failure is returned.
pub fn build_contexts(doc: &YamlDoc) -> (r: Result<BuiltContexts, DslError>)
    requires
        defs_wf(doc.1.0@),
    ensures
        match r {
            Ok(b) => {
                &&& b.0@.len() == doc.0.0@.len()
                &&& forall|i: int| #![trigger b.0@[i]] 0 <= i < b.0@.len() ==> {
                    &&& b.0@[i].0 == doc.0.0@[i].0
                    &&& b.0.0@[i].1.wf()
                    &&& !context_fails(ctx_props_view(doc.0.0@[i].1), doc.1@)
                    &&& context_accounts_ok(b.0@[i].1.accounts, ctx_props_view(doc.0.0@[i].1), doc.1@)
                    &&& b.0@[i].1.instruction == instruction_of(ctx_props_view(doc.0.0@[i].1))
                }
            },
            Err(e) => exists|i: int|
                0 <= i < doc.0.0@.len() && (forall|j: int|
                    0 <= j < i ==> !context_fails(ctx_props_view(#[trigger] doc.0.0@[j].1), doc.1@))
                    && context_fails(ctx_props_view(doc.0.0@[i].1), doc.1@) && (e matches DslError::UndefinedAccount(
                    n,
                ) && in_closure(n@, ctx_props_view(doc.0.0@[i].1), doc.1@) && lookup(doc.1@, n@) is None),
        },
{
    let contexts = &doc.0.0;
    let accounts = &doc.1;
    let mut out: Vec<(String, BuiltContext)> = Vec::new();
    let mut i: usize = 0;
    while i < contexts.0.len()
        invariant
            i <= contexts.0@.len(),
            contexts == doc.0.0,
            accounts == doc.1,
            defs_wf(accounts.0@),
            out@.len() == i,
            forall|j: int| #![trigger out@[j]] 0 <= j < i ==> {
                &&& out@[j].0@ == contexts@[j].0
                &&& out@[j].1.wf()
                &&& !context_fails(ctx_props_view(contexts.0@[j].1@), accounts@)
                &&& context_accounts_ok(out@[j].1@.accounts, ctx_props_view(contexts.0@[j].1@), accounts@)
                &&& out@[j].1@.instruction == instruction_of(ctx_props_view(contexts.0@[j].1@))
            },
        decreases contexts.0@.len() - i,
    {
        assert(contexts@[i as int].0 == contexts.0@[i as int].0@);
        match build_context(&contexts.0[i].1, accounts) {
            Ok(ctx) => {
                out.push((contexts.0[i].0.clone(), ctx));
            },
            Err(e) => {
                proof {
                    assert forall|j: int| 0 <= j < i implies !context_fails(
                        ctx_props_view(#[trigger] doc.0.0@[j].1),
                        doc.1@,
                    ) by {
                        assert(out@[j].1.wf());
                    }
                }
                return Err(e);
            },
        }
        i = i + 1;
    }
    let r = BuiltContexts(KeyedVec(out));
    proof {
        assert forall|j: int| #![trigger r.0@[j]] 0 <= j < r.0@.len() implies r.0@[j].0 == doc.0.0@[j].0 by {
            assert(r.0@[j].0 == out@[j].0@);
            assert(contexts@[j].0 == contexts.0@[j].0@);
        }
    }
    Ok(r)
}

} // verus!
