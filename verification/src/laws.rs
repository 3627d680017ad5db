//! What holds across the operations of the library.

use crate::builder::{ParseView, DefsView, built_accounts_ok, context_accounts_ok, depends_of, empty_slots, in_closure, is_ctx_account, marker, spec_build_account};
use crate::order::{SortKey, is_permutation, key_lt, lemma_key_lt_order, sorted_by};
use crate::output::{CompiledContextV, context_compiled, context_keys, merged_consts, last_with};
use crate::programs::{add_if_absent, flags_step, lemma_add_programs_extends, payer_account, program_flags, program_type, spec_add_programs, typed_account};
use crate::propsets::{NUM_KINDS, KIND_MUT, KIND_REAL_INIT, KIND_INIT, KIND_NO_INIT, KIND_CONDITIONAL, KIND_INIT_IF_NEEDED, KIND_SPACE, KIND_TOKEN_MINT, KIND_TOKEN_PROGRAM, KIND_MINT_AUTHORITY, KIND_MINT_TOKEN_PROGRAM, KIND_ASSOCIATED_TOKEN_MINT, KIND_ASSOCIATED_TOKEN_PROGRAM, KIND_TRANSFER_HOOK_PROGRAM_ID, KIND_ACCOUNT_TYPE, KIND_BOXED, KIND_ZERO_COPY, KIND_SEEDS, KIND_CONSTRAINTS, PropItem, PropSet, allowed, overlay, spec_kind_label, walk, walk_from, wf_view};
use crate::render::{account_consts, kv_meta, rewrite_account, spec_compile_account, spec_compile_type, spec_metas, value_toks};
use crate::syntax::{byte_str_value_of, has_c_literal, uppercase_of};
use crate::text::decimal;
use vstd::utf8::{decode_utf8, valid_utf8};
use crate::token::TokV;
use crate::types::{LabelledPropV, ParsePropV, PropValueV, slot_flag, ContextPropV, keys_distinct, keys_of, lookup, spec_is_ro, BuiltContextV, RealView};
use vstd::prelude::*;
use vstd::set_lib::{lemma_int_range, lemma_subset_equality, set_int_range};

verus! {

/// The properties walked from position `i` of the set's order are those stored under its
/// kinds from `i` on.
proof fn lemma_walk_from_holds<S: PropSet>(v: Seq<Option<<S::Item as View>::V>>, i: nat)
    ensures
        forall|q: int|
            i <= q < S::spec_props().len() && (#[trigger] v[S::spec_props()[q] as int]) is Some
                ==> walk_from::<S>(v, i).contains(v[S::spec_props()[q] as int]->0),
        forall|m: <S::Item as View>::V|
            #[trigger] walk_from::<S>(v, i).contains(m) ==> exists|q: int|
                i <= q < S::spec_props().len() && v[S::spec_props()[q] as int] == Some(m),
    decreases S::spec_props().len() - i,
{
    if i < S::spec_props().len() {
        lemma_walk_from_holds::<S>(v, i + 1);
        let k = S::spec_props()[i as int] as int;
        let rest = walk_from::<S>(v, i + 1);
        assert forall|q: int|
            i <= q < S::spec_props().len() && (#[trigger] v[S::spec_props()[q] as int]) is Some
                implies walk_from::<S>(v, i).contains(v[S::spec_props()[q] as int]->0) by {
            let x = v[S::spec_props()[q] as int]->0;
            if q == i {
                assert(walk_from::<S>(v, i) == seq![x].add(rest));
                assert(walk_from::<S>(v, i)[0] == x);
            } else {
                assert(rest.contains(x));
                let w = choose|w: int| 0 <= w < rest.len() && rest[w] == x;
                match v[k] {
                    Some(y) => {
                        assert(walk_from::<S>(v, i) == seq![y].add(rest));
                        assert(walk_from::<S>(v, i)[w + 1] == x);
                    },
                    None => {},
                }
            }
        }
        assert forall|m: <S::Item as View>::V| #[trigger] walk_from::<S>(v, i).contains(m) implies exists|q: int|
            i <= q < S::spec_props().len() && v[S::spec_props()[q] as int] == Some(m) by {
            let w = choose|w: int| 0 <= w < walk_from::<S>(v, i).len() && walk_from::<S>(v, i)[w] == m;
            match v[k] {
                Some(y) => {
                    if w == 0 {
                        assert(v[S::spec_props()[i as int] as int] == Some(m));
                    } else {
                        assert(rest[w - 1] == m);
                        assert(rest.contains(m));
                    }
                },
                None => {
                    assert(rest.contains(m));
                },
            }
        }
    }
}

/// A set holds a property of an allowed kind exactly when its keys list that kind's label,
/// where no other kind of the set is written with the same label (`DynStruct::has` and
/// `DynStruct::get` read the slot, `DynStruct::keys` lists the labels of the walk).
pub proof fn law_keys_list_stored_kinds<S: PropSet>(v: Seq<Option<<S::Item as View>::V>>, k: nat)
    requires
        wf_view::<S>(v),
        allowed::<S>(k),
        forall|j: nat| #[trigger] allowed::<S>(j) && j != k ==> spec_kind_label(j) != spec_kind_label(k),
    ensures
        v[k as int] is Some <==> exists|i: int|
            0 <= i < walk::<S>(v).len() && #[trigger] spec_kind_label(S::Item::spec_view_kind(walk::<S>(v)[i]))
                == spec_kind_label(k),
{
    S::lemma_props();
    lemma_walk_from_holds::<S>(v, 0);
    let w = walk::<S>(v);
    assert(w == walk_from::<S>(v, 0));
    let q0 = choose|q: int| 0 <= q < S::spec_props().len() && S::spec_props()[q] == k;
    if v[k as int] is Some {
        let x = v[k as int]->0;
        assert(v[S::spec_props()[q0] as int] is Some);
        assert(w.contains(x));
        let i = choose|i: int| 0 <= i < w.len() && w[i] == x;
        assert(S::Item::spec_view_kind(x) == k);
        assert(spec_kind_label(S::Item::spec_view_kind(w[i])) == spec_kind_label(k));
    }
    if exists|i: int|
        0 <= i < w.len() && #[trigger] spec_kind_label(S::Item::spec_view_kind(w[i])) == spec_kind_label(k) {
        let i = choose|i: int|
            0 <= i < w.len() && #[trigger] spec_kind_label(S::Item::spec_view_kind(w[i])) == spec_kind_label(k);
        let m = w[i];
        assert(w.contains(m));
        let q = choose|q: int| 0 <= q < S::spec_props().len() && v[S::spec_props()[q] as int] == Some(m);
        let j = S::spec_props()[q];
        assert(S::spec_props().contains(j));
        assert(allowed::<S>(j));
        assert(j < NUM_KINDS);
        assert(v[j as int] is Some);
        assert(S::Item::spec_view_kind(m) == j);
        if j != k {
            assert(spec_kind_label(j) != spec_kind_label(k));
        }
        assert(v[k as int] is Some);
    }
}

/// Writing a property of the same kind over a stored one keeps the kinds walked, in order.
proof fn lemma_walk_kinds_kept<S: PropSet>(
    v: Seq<Option<<S::Item as View>::V>>,
    k: nat,
    w: <S::Item as View>::V,
    i: nat,
)
    requires
        wf_view::<S>(v),
        k < NUM_KINDS,
        v[k as int] is Some,
        S::Item::spec_view_kind(w) == k,
        forall|q: int| 0 <= q < S::spec_props().len() ==> #[trigger] S::spec_props()[q] < NUM_KINDS,
    ensures
        walk_from::<S>(v.update(k as int, Some(w)), i).len() == walk_from::<S>(v, i).len(),
        forall|q: int|
            0 <= q < walk_from::<S>(v, i).len() ==> S::Item::spec_view_kind(
                #[trigger] walk_from::<S>(v.update(k as int, Some(w)), i)[q],
            ) == S::Item::spec_view_kind(walk_from::<S>(v, i)[q]),
    decreases S::spec_props().len() - i,
{
    if i < S::spec_props().len() {
        lemma_walk_kinds_kept::<S>(v, k, w, i + 1);
        let u = v.update(k as int, Some(w));
        let j = S::spec_props()[i as int] as int;
        let r1 = walk_from::<S>(u, i + 1);
        let r0 = walk_from::<S>(v, i + 1);
        assert(j < NUM_KINDS);
        if j == k {
            let x = v[k as int]->0;
            assert(S::Item::spec_view_kind(x) == k);
            assert(walk_from::<S>(u, i) == seq![w].add(r1));
            assert(walk_from::<S>(v, i) == seq![x].add(r0));
            assert forall|q: int| 0 <= q < walk_from::<S>(v, i).len() implies S::Item::spec_view_kind(
                #[trigger] walk_from::<S>(u, i)[q],
            ) == S::Item::spec_view_kind(walk_from::<S>(v, i)[q]) by {
                if q > 0 {
                    assert(walk_from::<S>(u, i)[q] == r1[q - 1]);
                    assert(walk_from::<S>(v, i)[q] == r0[q - 1]);
                }
            }
        } else {
            assert(u[j] == v[j]);
            match v[j] {
                Some(y) => {
                    assert(walk_from::<S>(u, i) == seq![y].add(r1));
                    assert(walk_from::<S>(v, i) == seq![y].add(r0));
                    assert forall|q: int| 0 <= q < walk_from::<S>(v, i).len() implies S::Item::spec_view_kind(
                        #[trigger] walk_from::<S>(u, i)[q],
                    ) == S::Item::spec_view_kind(walk_from::<S>(v, i)[q]) by {
                        if q > 0 {
                            assert(walk_from::<S>(u, i)[q] == r1[q - 1]);
                            assert(walk_from::<S>(v, i)[q] == r0[q - 1]);
                        }
                    }
                },
                None => {
                    assert(walk_from::<S>(u, i) == r1);
                    assert(walk_from::<S>(v, i) == r0);
                },
            }
        }
    }
}

/// Writing through `DynStruct::get_mut` a property of the kind looked up: a lookup of that
/// kind then gives the new property, every other kind keeps what it held, and the kinds the
/// set holds (so the labels `DynStruct::keys` lists) stay as they were, in order.
pub proof fn law_write_through_get_mut<S: PropSet>(
    v: Seq<Option<<S::Item as View>::V>>,
    k: nat,
    w: <S::Item as View>::V,
)
    requires
        wf_view::<S>(v),
        k < NUM_KINDS,
        v[k as int] is Some,
        S::Item::spec_view_kind(w) == k,
    ensures
        v.update(k as int, Some(w))[k as int] == Some(w),
        forall|j: int| 0 <= j < v.len() && j != k ==> #[trigger] v.update(k as int, Some(w))[j] == v[j],
        forall|j: int| 0 <= j < v.len() ==> (#[trigger] v.update(k as int, Some(w))[j] is Some <==> v[j] is Some),
        walk::<S>(v.update(k as int, Some(w))).len() == walk::<S>(v).len(),
        forall|q: int|
            0 <= q < walk::<S>(v).len() ==> S::Item::spec_view_kind(#[trigger] walk::<S>(v.update(k as int, Some(w)))[q])
                == S::Item::spec_view_kind(walk::<S>(v)[q]),
{
    S::lemma_props();
    lemma_walk_kinds_kept::<S>(v, k, w, 0);
}

/// A property stored under a kind is what a lookup of that kind gives back, and every other
/// kind keeps what it held (`DynStruct::insert` followed by `DynStruct::get`).
pub proof fn law_get_after_insert<V>(slots: Seq<Option<V>>, kind: int, x: V, other: int)
    requires
        0 <= kind < slots.len(),
        0 <= other < slots.len(),
        other != kind,
    ensures
        slots.update(kind, Some(x))[kind] == Some(x),
        slots.update(kind, Some(x))[other] == slots[other],
{
}

/// Storing properties of two different kinds gives the same set in either order, so
/// `DynStruct::iter` and `DynStruct::keys`, which follow the set's walk, give the same
/// sequences whatever the order of insertion.
pub proof fn law_insert_order_irrelevant<S: PropSet>(
    v: Seq<Option<<S::Item as View>::V>>,
    ka: int,
    a: <S::Item as View>::V,
    kb: int,
    b: <S::Item as View>::V,
)
    requires
        0 <= ka < v.len(),
        0 <= kb < v.len(),
        ka != kb,
    ensures
        v.update(ka, Some(a)).update(kb, Some(b)) == v.update(kb, Some(b)).update(ka, Some(a)),
        walk::<S>(v.update(ka, Some(a)).update(kb, Some(b))) == walk::<S>(v.update(kb, Some(b)).update(ka, Some(a))),
{
    assert(v.update(ka, Some(a)).update(kb, Some(b)) =~= v.update(kb, Some(b)).update(ka, Some(a)));
}

/// Removing a kind right after storing it leaves the set as removing it would have
/// (`DynStruct::insert` followed by `DynStruct::remove`).
pub proof fn law_remove_after_insert<V>(slots: Seq<Option<V>>, kind: int, x: V)
    requires
        0 <= kind < slots.len(),
    ensures
        slots.update(kind, Some(x)).update(kind, None) == slots.update(kind, None),
{
    assert(slots.update(kind, Some(x)).update(kind, None) =~= slots.update(kind, None));
}

/// Laying an empty set over a set, or a set over an empty one, gives the set
/// (`DynStruct::update`).
pub proof fn law_overlay_empty<V>(slots: Seq<Option<V>>)
    requires
        slots.len() == NUM_KINDS,
    ensures
        overlay(slots, empty_slots::<V>()) == slots,
        overlay(empty_slots::<V>(), slots) == slots,
{
    assert(overlay(slots, empty_slots::<V>()) =~= slots);
    assert(overlay(empty_slots::<V>(), slots) =~= slots);
}

/// Laying sets over one another does not depend on how the layers are grouped
/// (`DynStruct::update` twice).
pub proof fn law_overlay_associative<V>(a: Seq<Option<V>>, b: Seq<Option<V>>, c: Seq<Option<V>>)
    requires
        a.len() == b.len(),
        b.len() == c.len(),
    ensures
        overlay(overlay(a, b), c) == overlay(a, overlay(b, c)),
{
    assert(overlay(overlay(a, b), c) =~= overlay(a, overlay(b, c)));
}

/// Adding an entry under a name that is not taken keeps the names of a keyed list unique
/// (`KeyedVec::insert`).
pub proof fn law_insert_keeps_names_unique<V>(entries: Seq<(Seq<char>, V)>, name: Seq<char>, x: V)
    requires
        keys_distinct(entries),
        !keys_of(entries).contains(name),
    ensures
        keys_distinct(entries.push((name, x))),
{
    let e = entries.push((name, x));
    assert forall|i: int, j: int| 0 <= i < j < e.len() implies e[i].0 != e[j].0 by {
        if j == entries.len() {
            assert(keys_of(entries)[i] == entries[i].0);
        }
    }
}

/// Every account a context names is one of its built accounts (`build_context`).
pub proof fn law_named_accounts_are_built(
    accounts: Seq<(Seq<char>, RealView)>,
    props: Seq<ContextPropV>,
    defs: DefsView,
    name: Seq<char>,
)
    requires
        context_accounts_ok(accounts, props, defs),
        is_ctx_account(props, name),
    ensures
        keys_of(accounts).contains(name),
{
    let accs = choose|accs: Seq<(Seq<char>, RealView)>|
        built_accounts_ok(accs, props, defs) && accounts == #[trigger] spec_add_programs(accs);
    lemma_add_programs_extends(accs);
    assert(in_closure(name, props, defs));
    assert(keys_of(accs).contains(name));
    let w = choose|w: int| 0 <= w < keys_of(accs).len() && keys_of(accs)[w] == name;
    assert(keys_of(accounts)[w] == name);
}

/// Every account that a needed account depends on is built too (`build_context`).
pub proof fn law_dependencies_are_built(
    accounts: Seq<(Seq<char>, RealView)>,
    props: Seq<ContextPropV>,
    defs: DefsView,
    name: Seq<char>,
    dep: Seq<char>,
)
    requires
        context_accounts_ok(accounts, props, defs),
        in_closure(name, props, defs),
        lookup(defs, name) is Some,
        depends_of(lookup(defs, name)->0).contains(dep),
    ensures
        keys_of(accounts).contains(dep),
{
    let accs = choose|accs: Seq<(Seq<char>, RealView)>|
        built_accounts_ok(accs, props, defs) && accounts == #[trigger] spec_add_programs(accs);
    lemma_add_programs_extends(accs);
    assert forall|c: Set<Seq<char>>| crate::builder::dep_closed(c, props, defs) implies #[trigger] c.contains(dep) by {
        assert(c.contains(name));
    }
    assert(in_closure(dep, props, defs));
    assert(keys_of(accs).contains(dep));
    let w = choose|w: int| 0 <= w < keys_of(accs).len() && keys_of(accs)[w] == dep;
    assert(keys_of(accounts)[w] == dep);
}

/// An account that a context gives `mut` or `init` is written: it is not read-only, so
/// its wrapper field has the field's own type (`build_context`, then `compile_account`).
pub proof fn law_mut_or_init_is_writable(def: crate::builder::ParseView, args: Seq<Seq<char>>, name: Seq<char>)
    requires
        args.contains("mut"@) || args.contains("init"@),
    ensures
        !spec_is_ro(spec_build_account(def, args)),
        spec_compile_account(name, spec_build_account(def, args)).wrapped_ty == spec_compile_account(
            name,
            spec_build_account(def, args),
        ).ty,
{
}

/// `mut` in a context gives the account the `mut` argument of `#[account(..)]`.
pub proof fn law_mut_gives_mut_argument(def: crate::builder::ParseView, args: Seq<Seq<char>>)
    requires
        args.contains("mut"@),
    ensures
        spec_metas(spec_build_account(def, args)).contains(seq![TokV::Ident("mut"@)]),
{
    let v = spec_build_account(def, args);
    assert(v[KIND_MUT as int] == Some(marker(KIND_MUT as nat, "mut"@)));
    let before = crate::render::init_meta(v, KIND_REAL_INIT as int) + crate::render::flag_init_meta(
        v,
        crate::propsets::KIND_INIT_IF_NEEDED as int,
    ) + crate::render::seeds_meta(v) + crate::render::kv_meta(v, crate::propsets::KIND_SPACE as int);
    let m = spec_metas(v);
    let mut_meta = crate::render::label_meta(v, KIND_MUT as int);
    assert(mut_meta == seq![seq![TokV::Ident("mut"@)]]);
    let upto = before + mut_meta;
    assert(upto[before.len() as int] == seq![TokV::Ident("mut"@)]);
    assert(m[before.len() as int] == upto[before.len() as int]);
}

proof fn lemma_flags_keep_sys(f: crate::programs::ProgramFlags, a: RealView)
    ensures
        f.sys ==> flags_step(f, a).sys,
        a[KIND_REAL_INIT as int] is Some ==> flags_step(f, a).sys,
{
}

proof fn lemma_init_sets_sys(accs: Seq<(Seq<char>, RealView)>, j: int)
    requires
        0 <= j < accs.len(),
        accs[j].1[KIND_REAL_INIT as int] is Some,
    ensures
        program_flags(accs).sys,
    decreases accs.len(),
{
    lemma_flags_keep_sys(program_flags(accs.drop_last()), accs.last().1);
    if j < accs.len() - 1 {
        lemma_init_sets_sys(accs.drop_last(), j);
    }
}

proof fn lemma_add_if_absent_keys(
    a: Seq<(Seq<char>, RealView)>,
    name: Seq<char>,
    acc: RealView,
    other: Seq<char>,
)
    ensures
        keys_of(crate::programs::add_if_absent(a, name, acc)).contains(name),
        keys_of(a).contains(other) ==> keys_of(crate::programs::add_if_absent(a, name, acc)).contains(other),
{
    let b = crate::programs::add_if_absent(a, name, acc);
    if !keys_of(a).contains(name) {
        assert(keys_of(b)[a.len() as int] == name);
        if keys_of(a).contains(other) {
            let w = choose|w: int| 0 <= w < keys_of(a).len() && keys_of(a)[w] == other;
            assert(keys_of(b)[w] == other);
        }
    }
}

/// A context with an account to create also has the system program and a payer
/// (`add_programs_to_context`).
pub proof fn law_init_brings_payer(accs: Seq<(Seq<char>, RealView)>, j: int)
    requires
        0 <= j < accs.len(),
        accs[j].1[KIND_REAL_INIT as int] is Some,
    ensures
        keys_of(spec_add_programs(accs)).contains("system_program"@),
        keys_of(spec_add_programs(accs)).contains("payer"@),
{
    lemma_init_sets_sys(accs, j);
    let f = program_flags(accs);
    let sp = crate::programs::typed_account("system_program"@, crate::programs::program_type("System"@));
    let x = crate::programs::add_if_absent(accs, "system_program"@, sp);
    lemma_add_if_absent_keys(accs, "system_program"@, sp, "payer"@);
    lemma_add_if_absent_keys(x, "payer"@, crate::programs::payer_account(), "system_program"@);
    let a1 = crate::programs::add_if_absent(x, "payer"@, crate::programs::payer_account());
    let tp = crate::programs::typed_account("token_program"@, crate::programs::program_type("Token"@));
    let a2 = if f.token {
        lemma_add_if_absent_keys(a1, "token_program"@, tp, "system_program"@);
        lemma_add_if_absent_keys(a1, "token_program"@, tp, "payer"@);
        crate::programs::add_if_absent(a1, "token_program"@, tp)
    } else {
        a1
    };
    let t2 = crate::programs::typed_account("token_program_2022"@, crate::programs::program_type("Token2022"@));
    let a3 = if f.token2022 {
        lemma_add_if_absent_keys(a2, "token_program_2022"@, t2, "system_program"@);
        lemma_add_if_absent_keys(a2, "token_program_2022"@, t2, "payer"@);
        crate::programs::add_if_absent(a2, "token_program_2022"@, t2)
    } else {
        a2
    };
    let at = crate::programs::typed_account(
        "associated_token_program"@,
        crate::programs::program_type("AssociatedToken"@),
    );
    if f.ata {
        lemma_add_if_absent_keys(a3, "associated_token_program"@, at, "system_program"@);
        lemma_add_if_absent_keys(a3, "associated_token_program"@, at, "payer"@);
    }
}

proof fn lemma_add_if_absent_distinct(a: Seq<(Seq<char>, RealView)>, name: Seq<char>, acc: RealView)
    requires
        keys_distinct(a),
    ensures
        keys_distinct(crate::programs::add_if_absent(a, name, acc)),
{
    if !keys_of(a).contains(name) {
        law_insert_keeps_names_unique(a, name, acc);
    }
}

/// No two accounts of a built context share a name (`build_context`).
pub proof fn law_built_names_unique(accounts: Seq<(Seq<char>, RealView)>, props: Seq<ContextPropV>, defs: DefsView)
    requires
        context_accounts_ok(accounts, props, defs),
    ensures
        keys_distinct(accounts),
{
    let accs = choose|accs: Seq<(Seq<char>, RealView)>|
        built_accounts_ok(accs, props, defs) && accounts == #[trigger] spec_add_programs(accs);
    let f = program_flags(accs);
    let sp = crate::programs::typed_account("system_program"@, crate::programs::program_type("System"@));
    let x = crate::programs::add_if_absent(accs, "system_program"@, sp);
    lemma_add_if_absent_distinct(accs, "system_program"@, sp);
    lemma_add_if_absent_distinct(x, "payer"@, crate::programs::payer_account());
    let a1 = if f.sys {
        crate::programs::add_if_absent(x, "payer"@, crate::programs::payer_account())
    } else {
        accs
    };
    let tp = crate::programs::typed_account("token_program"@, crate::programs::program_type("Token"@));
    lemma_add_if_absent_distinct(a1, "token_program"@, tp);
    let a2 = if f.token {
        crate::programs::add_if_absent(a1, "token_program"@, tp)
    } else {
        a1
    };
    let t2 = crate::programs::typed_account("token_program_2022"@, crate::programs::program_type("Token2022"@));
    lemma_add_if_absent_distinct(a2, "token_program_2022"@, t2);
    let a3 = if f.token2022 {
        crate::programs::add_if_absent(a2, "token_program_2022"@, t2)
    } else {
        a2
    };
    let at = crate::programs::typed_account(
        "associated_token_program"@,
        crate::programs::program_type("AssociatedToken"@),
    );
    lemma_add_if_absent_distinct(a3, "associated_token_program"@, at);
}

/// Two lists in strictly increasing key order with the same keys are the same list.
proof fn lemma_strictly_sorted_equal(a: Seq<SortKey>, b: Seq<SortKey>)
    requires
        forall|i: int, j: int| 0 <= i < j < a.len() ==> key_lt(#[trigger] a[i], #[trigger] a[j]),
        forall|i: int, j: int| 0 <= i < j < b.len() ==> key_lt(#[trigger] b[i], #[trigger] b[j]),
        forall|x: SortKey| a.contains(x) <==> b.contains(x),
    ensures
        a == b,
    decreases a.len() + b.len(),
{
    if a.len() == 0 {
        if b.len() > 0 {
            assert(b.contains(b[0]));
        }
        assert(a =~= b);
    } else if b.len() == 0 {
        assert(a.contains(a[0]));
    } else {
        assert(a.contains(a[0]));
        assert(b.contains(b[0]));
        let q = choose|q: int| 0 <= q < b.len() && b[q] == a[0];
        let p = choose|p: int| 0 <= p < a.len() && a[p] == b[0];
        lemma_key_lt_order(a[0], b[0], a[0]);
        if q > 0 {
            assert(key_lt(b[0], b[q]));
            if p > 0 {
                assert(key_lt(a[0], a[p]));
            }
        }
        assert(a[0] == b[0]);
        let a2 = a.drop_first();
        let b2 = b.drop_first();
        assert forall|x: SortKey| a2.contains(x) <==> b2.contains(x) by {
            if a2.contains(x) {
                let i = choose|i: int| 0 <= i < a2.len() && a2[i] == x;
                assert(key_lt(a[0], a[i + 1]));
                lemma_key_lt_order(x, x, x);
                assert(a.contains(x));
                let k = choose|k: int| 0 <= k < b.len() && b[k] == x;
                assert(k != 0);
                assert(b2[k - 1] == x);
            }
            if b2.contains(x) {
                let i = choose|i: int| 0 <= i < b2.len() && b2[i] == x;
                assert(key_lt(b[0], b[i + 1]));
                lemma_key_lt_order(x, x, x);
                assert(b.contains(x));
                let k = choose|k: int| 0 <= k < a.len() && a[k] == x;
                assert(k != 0);
                assert(a2[k - 1] == x);
            }
        }
        assert forall|i: int, j: int| 0 <= i < j < a2.len() implies key_lt(#[trigger] a2[i], #[trigger] a2[j]) by {
            assert(key_lt(a[i + 1], a[j + 1]));
        }
        assert forall|i: int, j: int| 0 <= i < j < b2.len() implies key_lt(#[trigger] b2[i], #[trigger] b2[j]) by {
            assert(key_lt(b[i + 1], b[j + 1]));
        }
        lemma_strictly_sorted_equal(a2, b2);
        assert(a =~= seq![a[0]] + a2);
        assert(b =~= seq![b[0]] + b2);
    }
}

/// A permutation of `0..n` takes every position.
proof fn lemma_permutation_onto(order: Seq<usize>, n: nat, e: int)
    requires
        is_permutation(order, n),
        0 <= e < n,
    ensures
        exists|i: int| 0 <= i < order.len() && order[i] == e,
{
    let ints = order.map_values(|x: usize| x as int);
    assert(ints.no_duplicates()) by {
        assert forall|i: int, j: int| 0 <= i < ints.len() && 0 <= j < ints.len() && i != j implies ints[i]
            != ints[j] by {
            if i < j {
                assert(order[i] != order[j]);
            } else {
                assert(order[j] != order[i]);
            }
        }
    }
    ints.unique_seq_to_set();
    vstd::seq_lib::seq_to_set_is_finite(ints);
    lemma_int_range(0, n as int);
    assert(ints.to_set().subset_of(set_int_range(0, n as int))) by {
        assert forall|x: int| ints.to_set().contains(x) implies set_int_range(0, n as int).contains(x) by {
            let i = choose|i: int| 0 <= i < ints.len() && ints[i] == x;
            assert(order[i] < n);
        }
    }
    lemma_subset_equality(ints.to_set(), set_int_range(0, n as int));
    assert(set_int_range(0, n as int).contains(e));
    assert(ints.to_set().contains(e));
    let i = choose|i: int| 0 <= i < ints.len() && ints[i] == e;
    assert(order[i] == e);
}

/// The keys taken in the given order.
pub open spec fn keys_in_order(keys: Seq<SortKey>, order: Seq<usize>) -> Seq<SortKey> {
    Seq::new(order.len(), |i: int| keys[order[i] as int])
}

/// The keys taken in a sorted order, when no two keys are equal, strictly increase.
proof fn lemma_sorted_strict(keys: Seq<SortKey>, order: Seq<usize>)
    requires
        is_permutation(order, keys.len()),
        sorted_by(keys, order),
        forall|i: int, j: int| 0 <= i < j < keys.len() ==> keys[i] != keys[j],
    ensures
        forall|i: int, j: int|
            0 <= i < j < order.len() ==> key_lt(
                #[trigger] keys_in_order(keys, order)[i],
                #[trigger] keys_in_order(keys, order)[j],
            ),
{
    let ks = keys_in_order(keys, order);
    assert forall|i: int, j: int| 0 <= i < j < order.len() implies key_lt(#[trigger] ks[i], #[trigger] ks[j]) by {
        let a = keys[order[i] as int];
        let b = keys[order[j] as int];
        assert(!key_lt(b, a));
        assert(order[i] != order[j]);
        if order[i] < order[j] {
            assert(a != b);
        } else {
            assert(keys[order[j] as int] != keys[order[i] as int]);
        }
        lemma_key_lt_order(a, b, a);
    }
}

/// When no two keys are equal, there is one order that sorts them: a sort's result does
/// not depend on how it was reached (`sort_order`).
pub proof fn law_sorted_order_is_unique(keys: Seq<SortKey>, o1: Seq<usize>, o2: Seq<usize>)
    requires
        forall|i: int, j: int| 0 <= i < j < keys.len() ==> keys[i] != keys[j],
        is_permutation(o1, keys.len()),
        is_permutation(o2, keys.len()),
        sorted_by(keys, o1),
        sorted_by(keys, o2),
    ensures
        o1 == o2,
{
    let k1 = keys_in_order(keys, o1);
    let k2 = keys_in_order(keys, o2);
    lemma_sorted_strict(keys, o1);
    lemma_sorted_strict(keys, o2);
    assert forall|x: SortKey| k1.contains(x) <==> k2.contains(x) by {
        if k1.contains(x) {
            let i = choose|i: int| 0 <= i < k1.len() && k1[i] == x;
            lemma_permutation_onto(o2, keys.len(), o1[i] as int);
            let j = choose|j: int| 0 <= j < o2.len() && o2[j] == o1[i] as int;
            assert(k2[j] == x);
        }
        if k2.contains(x) {
            let i = choose|i: int| 0 <= i < k2.len() && k2[i] == x;
            lemma_permutation_onto(o1, keys.len(), o2[i] as int);
            let j = choose|j: int| 0 <= j < o1.len() && o1[j] == o2[i] as int;
            assert(k1[j] == x);
        }
    }
    lemma_strictly_sorted_equal(k1, k2);
    assert forall|i: int| 0 <= i < o1.len() implies o1[i] == o2[i] by {
        assert(k1[i] == k2[i]);
        if o1[i] != o2[i] {
            if o1[i] < o2[i] {
                assert(keys[o1[i] as int] != keys[o2[i] as int]);
            } else {
                assert(keys[o2[i] as int] != keys[o1[i] as int]);
            }
        }
    }
    assert(o1 =~= o2);
}

/// Compiling a context gives one result: with the same type texts, the accounts come in
/// the same order and the same constants are found (`compile_context_sorted`).
pub proof fn law_context_compiles_one_way(
    r1: CompiledContextV,
    r2: CompiledContextV,
    f1: Seq<(Seq<char>, TokV)>,
    f2: Seq<(Seq<char>, TokV)>,
    before: Seq<(Seq<char>, TokV)>,
    name: Seq<char>,
    c: BuiltContextV,
    texts: Seq<Option<Seq<char>>>,
)
    requires
        keys_distinct(c.accounts),
        texts.len() == c.accounts.len(),
        context_compiled(r1, f1, before, name, c, texts),
        context_compiled(r2, f2, before, name, c, texts),
    ensures
        r1 == r2,
        f1 == f2,
{
    let keys = context_keys(c.accounts, texts);
    let o1 = choose|order: Seq<usize>|
        #![trigger crate::output::compiled_accounts(c.accounts, order)]
        {
            &&& is_permutation(order, c.accounts.len())
            &&& sorted_by(keys, order)
            &&& r1 == CompiledContextV {
                name,
                instruction: c.instruction,
                accounts: crate::output::compiled_accounts(c.accounts, order),
            }
            &&& f1 == before + crate::output::ordered_consts(c.accounts, order)
        };
    let o2 = choose|order: Seq<usize>|
        #![trigger crate::output::compiled_accounts(c.accounts, order)]
        {
            &&& is_permutation(order, c.accounts.len())
            &&& sorted_by(keys, order)
            &&& r2 == CompiledContextV {
                name,
                instruction: c.instruction,
                accounts: crate::output::compiled_accounts(c.accounts, order),
            }
            &&& f2 == before + crate::output::ordered_consts(c.accounts, order)
        };
    assert forall|i: int, j: int| 0 <= i < j < keys.len() implies keys[i] != keys[j] by {
        assert(c.accounts[i].0 != c.accounts[j].0);
    }
    law_sorted_order_is_unique(keys, o1, o2);
}

/// `found` lists the constants found before each context and after the last, and each
/// compiled context is its built context compiled, ordered by the given type texts.
pub open spec fn doc_steps_with(
    found: Seq<Seq<(Seq<char>, TokV)>>,
    compiled: Seq<CompiledContextV>,
    built: Seq<(Seq<char>, BuiltContextV)>,
    texts: Seq<Seq<Option<Seq<char>>>>,
) -> bool {
    &&& found.len() == built.len() + 1
    &&& found[0] == Seq::<(Seq<char>, TokV)>::empty()
    &&& compiled.len() == built.len()
    &&& texts.len() == built.len()
    &&& forall|i: int|
        0 <= i < built.len() ==> context_compiled(
            #[trigger] compiled[i],
            found[i + 1],
            found[i],
            built[i].0,
            built[i].1,
            texts[i],
        )
}

proof fn lemma_steps_agree(
    built: Seq<(Seq<char>, BuiltContextV)>,
    texts: Seq<Seq<Option<Seq<char>>>>,
    f1: Seq<Seq<(Seq<char>, TokV)>>,
    f2: Seq<Seq<(Seq<char>, TokV)>>,
    c1: Seq<CompiledContextV>,
    c2: Seq<CompiledContextV>,
    n: int,
)
    requires
        0 <= n <= built.len(),
        forall|i: int| 0 <= i < built.len() ==> keys_distinct((#[trigger] built[i]).1.accounts),
        forall|i: int| 0 <= i < built.len() ==> (#[trigger] texts[i]).len() == built[i].1.accounts.len(),
        doc_steps_with(f1, c1, built, texts),
        doc_steps_with(f2, c2, built, texts),
    ensures
        f1[n] == f2[n],
        forall|i: int| 0 <= i < n ==> c1[i] == c2[i],
    decreases n,
{
    if n > 0 {
        lemma_steps_agree(built, texts, f1, f2, c1, c2, n - 1);
        let i = n - 1;
        assert(context_compiled(c1[i], f1[i + 1], f1[i], built[i].0, built[i].1, texts[i]));
        assert(context_compiled(c2[i], f2[i + 1], f2[i], built[i].0, built[i].1, texts[i]));
        assert(keys_distinct(built[i].1.accounts));
        assert(texts[i].len() == built[i].1.accounts.len());
        law_context_compiles_one_way(c1[i], c2[i], f1[i + 1], f2[i + 1], f1[i], built[i].0, built[i].1, texts[i]);
    }
}

/// Compiling a document gives one result: with the same type texts for each context, the
/// compiled contexts and the merged constants are the same (`compile`).
pub proof fn law_document_compiles_one_way(
    built: Seq<(Seq<char>, BuiltContextV)>,
    texts: Seq<Seq<Option<Seq<char>>>>,
    f1: Seq<Seq<(Seq<char>, TokV)>>,
    f2: Seq<Seq<(Seq<char>, TokV)>>,
    c1: Seq<CompiledContextV>,
    c2: Seq<CompiledContextV>,
    k1: Seq<(Seq<char>, TokV)>,
    k2: Seq<(Seq<char>, TokV)>,
)
    requires
        forall|i: int| 0 <= i < built.len() ==> keys_distinct((#[trigger] built[i]).1.accounts),
        forall|i: int| 0 <= i < built.len() ==> (#[trigger] texts[i]).len() == built[i].1.accounts.len(),
        doc_steps_with(f1, c1, built, texts),
        doc_steps_with(f2, c2, built, texts),
        merged_consts(f1.last(), k1),
        merged_consts(f2.last(), k2),
    ensures
        c1 == c2,
        k1 == k2,
{
    lemma_steps_agree(built, texts, f1, f2, c1, c2, built.len() as int);
    assert(c1 =~= c2);
    law_merged_constants_are_unique(f1.last(), k1, k2);
}

/// The constants of a document are fixed by the constants found: one list holds each name
/// once, in order, with its last literal (`merge_constants`).
pub proof fn law_merged_constants_are_unique(
    found: Seq<(Seq<char>, TokV)>,
    o1: Seq<(Seq<char>, TokV)>,
    o2: Seq<(Seq<char>, TokV)>,
)
    requires
        merged_consts(found, o1),
        merged_consts(found, o2),
    ensures
        o1 == o2,
{
    let k1 = o1.map_values(|e: (Seq<char>, TokV)| (None::<Seq<char>>, e.0));
    let k2 = o2.map_values(|e: (Seq<char>, TokV)| (None::<Seq<char>>, e.0));
    assert forall|i: int, j: int| 0 <= i < j < k1.len() implies key_lt(#[trigger] k1[i], #[trigger] k1[j]) by {
        assert(crate::text::seq_lt(o1[i].0, o1[j].0));
    }
    assert forall|i: int, j: int| 0 <= i < j < k2.len() implies key_lt(#[trigger] k2[i], #[trigger] k2[j]) by {
        assert(crate::text::seq_lt(o2[i].0, o2[j].0));
    }
    assert forall|x: SortKey| k1.contains(x) <==> k2.contains(x) by {
        if k1.contains(x) {
            let i = choose|i: int| 0 <= i < k1.len() && k1[i] == x;
            assert(last_with(found, o1[i].0) is Some);
            let j = choose|j: int| 0 <= j < o2.len() && (#[trigger] o2[j]).0 == o1[i].0;
            assert(k2[j] == x);
        }
        if k2.contains(x) {
            let i = choose|i: int| 0 <= i < k2.len() && k2[i] == x;
            assert(last_with(found, o2[i].0) is Some);
            let j = choose|j: int| 0 <= j < o1.len() && (#[trigger] o1[j]).0 == o2[i].0;
            assert(k1[j] == x);
        }
    }
    lemma_strictly_sorted_equal(k1, k2);
    assert forall|i: int| 0 <= i < o1.len() implies o1[i] == o2[i] by {
        assert(k1[i] == k2[i]);
        assert(last_with(found, o1[i].0) == Some(o1[i].1));
        assert(last_with(found, o2[i].0) == Some(o2[i].1));
    }
    assert(o1 =~= o2);
}

/// A sequence holds what either part of a concatenation holds.
proof fn lemma_contains_add<T>(a: Seq<T>, b: Seq<T>, x: T)
    ensures
        a.contains(x) ==> (a + b).contains(x),
        b.contains(x) ==> (a + b).contains(x),
{
    if a.contains(x) {
        let i = choose|i: int| 0 <= i < a.len() && a[i] == x;
        assert((a + b)[i] == x);
    }
    if b.contains(x) {
        let i = choose|i: int| 0 <= i < b.len() && b[i] == x;
        assert((a + b)[a.len() + i] == x);
    }
}

/// The clauses of a definition hold one slot per kind, as every property set does.
pub open spec fn clauses_wf(def: ParseView, args: Seq<Seq<char>>) -> bool {
    &&& crate::builder::nested_slot(def[KIND_INIT as int]).len() == NUM_KINDS
    &&& crate::builder::nested_slot(def[KIND_NO_INIT as int]).len() == NUM_KINDS
    &&& crate::builder::cond_slot(def[KIND_CONDITIONAL as int], args).len() == NUM_KINDS
    &&& forall|j: int|
        18 <= j < NUM_KINDS ==> (#[trigger] crate::builder::nested_slot(def[KIND_INIT as int])[j]) is None
            && crate::builder::nested_slot(def[KIND_NO_INIT as int])[j] is None && crate::builder::cond_slot(
            def[KIND_CONDITIONAL as int],
            args,
        )[j] is None
}

/// The clause of a definition that is in force for the arguments (`init:` or `noinit:`,
/// then `if`) gives no property of kind `k`.
pub open spec fn no_clause_sets(def: ParseView, args: Seq<Seq<char>>, k: int) -> bool {
    &&& (args.contains("init"@) ==> crate::builder::nested_slot(def[KIND_INIT as int])[k] is None)
    &&& (!args.contains("init"@) ==> crate::builder::nested_slot(def[KIND_NO_INIT as int])[k] is None)
    &&& crate::builder::cond_slot(def[KIND_CONDITIONAL as int], args)[k] is None
}

/// A plain property of a shared kind (`type`, `space`, `seeds`, `token::..`, ..) that is
/// written at the top of a definition is kept in the built account, as written, unless a
/// clause in force (`init:`, `noinit:`, `if`) gives that kind.
pub proof fn law_plain_properties_are_kept(def: ParseView, args: Seq<Seq<char>>, k: int, p: LabelledPropV)
    requires
        0 <= k < 18,
        def.len() == NUM_KINDS,
        clauses_wf(def, args),
        def[k] == Some(ParsePropV::Plain(p)),
        no_clause_sets(def, args, k),
    ensures
        spec_build_account(def, args)[k] == Some(p),
{
    let is_init = args.contains("init"@);
    assert(crate::builder::plain_props(def, is_init)[k] == Some(p));
    assert(crate::builder::added_props(def, args)[k] is None);
}

/// A property of a shared kind that the `if <arg>:` clause in force gives replaces what the
/// definition writes at its top for that kind.
pub proof fn law_condition_overrides(def: ParseView, args: Seq<Seq<char>>, k: int, p: LabelledPropV)
    requires
        0 <= k < 18,
        def.len() == NUM_KINDS,
        clauses_wf(def, args),
        crate::builder::cond_slot(def[KIND_CONDITIONAL as int], args)[k] == Some(p),
    ensures
        spec_build_account(def, args)[k] == Some(p),
{
    assert(crate::builder::added_props(def, args)[k] == Some(p));
}

/// The `init:` clause gives its properties to an account the context creates, and the
/// `noinit:` clause to one it does not, unless the `if` clause in force gives the kind.
pub proof fn law_init_clauses(def: ParseView, args: Seq<Seq<char>>, k: int, p: LabelledPropV)
    requires
        0 <= k < 18,
        def.len() == NUM_KINDS,
        clauses_wf(def, args),
        crate::builder::cond_slot(def[KIND_CONDITIONAL as int], args)[k] is None,
    ensures
        args.contains("init"@) && crate::builder::nested_slot(def[KIND_INIT as int])[k] == Some(p)
            ==> spec_build_account(def, args)[k] == Some(p),
        !args.contains("init"@) && crate::builder::nested_slot(def[KIND_NO_INIT as int])[k] == Some(p)
            ==> spec_build_account(def, args)[k] == Some(p),
{
}

/// The arguments a context gives an account: `init` gives it `init`, `mut` gives it `mut`,
/// and `init_if_needed` is kept as written only when the account is not created by `init`.
pub proof fn law_account_arguments(def: ParseView, args: Seq<Seq<char>>)
    requires
        def.len() == NUM_KINDS,
        clauses_wf(def, args),
    ensures
        spec_build_account(def, args)[KIND_REAL_INIT as int] is Some <==> args.contains("init"@),
        spec_build_account(def, args)[KIND_MUT as int] is Some <==> args.contains("mut"@),
        !args.contains("init"@) ==> spec_build_account(def, args)[KIND_INIT_IF_NEEDED as int]
            == crate::builder::plain_slot(def[KIND_INIT_IF_NEEDED as int]),
        args.contains("init"@) ==> spec_build_account(def, args)[KIND_INIT_IF_NEEDED as int] is None,
{
    assert(crate::builder::nested_slot(def[KIND_INIT as int])[18] is None);
    assert(crate::builder::nested_slot(def[KIND_INIT as int])[19] is None);
    assert(crate::builder::nested_slot(def[KIND_INIT as int])[20] is None);
}

proof fn lemma_keys_add_if_absent(a: Seq<(Seq<char>, RealView)>, m: Seq<char>, x: RealView, n: Seq<char>)
    ensures
        keys_of(add_if_absent(a, m, x)).contains(m),
        keys_of(a).contains(n) ==> keys_of(add_if_absent(a, m, x)).contains(n),
{
    if !keys_of(a).contains(m) {
        let b = a.push((m, x));
        assert(keys_of(b)[a.len() as int] == m);
        if keys_of(a).contains(n) {
            let i = choose|i: int| 0 <= i < keys_of(a).len() && keys_of(a)[i] == n;
            assert(keys_of(b)[i] == n);
        }
    }
}

/// The flags only grow along the accounts.
proof fn lemma_flags_grow(accs: Seq<(Seq<char>, RealView)>, j: int)
    requires
        0 <= j <= accs.len(),
    ensures
        program_flags(accs.take(j)).sys ==> program_flags(accs).sys,
        program_flags(accs.take(j)).token ==> program_flags(accs).token,
        program_flags(accs.take(j)).token2022 ==> program_flags(accs).token2022,
        program_flags(accs.take(j)).ata ==> program_flags(accs).ata,
    decreases accs.len() - j,
{
    if j < accs.len() {
        lemma_flags_grow(accs, j + 1);
        assert(accs.take(j + 1).drop_last() =~= accs.take(j));
    } else {
        assert(accs.take(j) =~= accs);
    }
}

/// The flags after the accounts up to and including `j`.
proof fn lemma_flags_at(accs: Seq<(Seq<char>, RealView)>, j: int)
    requires
        0 <= j < accs.len(),
    ensures
        flags_step(program_flags(accs.take(j)), accs[j].1).sys ==> program_flags(accs).sys,
        flags_step(program_flags(accs.take(j)), accs[j].1).token ==> program_flags(accs).token,
        flags_step(program_flags(accs.take(j)), accs[j].1).token2022 ==> program_flags(accs).token2022,
        flags_step(program_flags(accs.take(j)), accs[j].1).ata ==> program_flags(accs).ata,
{
    assert(accs.take(j + 1).drop_last() =~= accs.take(j));
    assert(accs.take(j + 1).last() == accs[j]);
    lemma_flags_grow(accs, j + 1);
}

/// The names of the accounts after the program accounts are added: every name there was,
/// and each program account whose flag is set.
proof fn lemma_programs_named(accs: Seq<(Seq<char>, RealView)>, n: Seq<char>)
    ensures
        keys_of(accs).contains(n) ==> keys_of(spec_add_programs(accs)).contains(n),
        program_flags(accs).sys ==> keys_of(spec_add_programs(accs)).contains("system_program"@)
            && keys_of(spec_add_programs(accs)).contains("payer"@),
        program_flags(accs).token ==> keys_of(spec_add_programs(accs)).contains("token_program"@),
        program_flags(accs).token2022 ==> keys_of(spec_add_programs(accs)).contains("token_program_2022"@),
        program_flags(accs).ata ==> keys_of(spec_add_programs(accs)).contains("associated_token_program"@),
{
    let f = program_flags(accs);
    let sp = typed_account("system_program"@, program_type("System"@));
    let tp = typed_account("token_program"@, program_type("Token"@));
    let t2 = typed_account("token_program_2022"@, program_type("Token2022"@));
    let at = typed_account("associated_token_program"@, program_type("AssociatedToken"@));
    let x = add_if_absent(accs, "system_program"@, sp);
    let a1 = if f.sys { add_if_absent(x, "payer"@, payer_account()) } else { accs };
    let a2 = if f.token { add_if_absent(a1, "token_program"@, tp) } else { a1 };
    let a3 = if f.token2022 { add_if_absent(a2, "token_program_2022"@, t2) } else { a2 };
    let a4 = if f.ata { add_if_absent(a3, "associated_token_program"@, at) } else { a3 };
    assert(a4 == spec_add_programs(accs));
    lemma_keys_add_if_absent(accs, "system_program"@, sp, n);
    lemma_keys_add_if_absent(x, "payer"@, payer_account(), n);
    lemma_keys_add_if_absent(a1, "token_program"@, tp, n);
    lemma_keys_add_if_absent(a2, "token_program_2022"@, t2, n);
    lemma_keys_add_if_absent(a3, "associated_token_program"@, at, n);
    lemma_keys_add_if_absent(accs, "system_program"@, sp, "system_program"@);
    lemma_keys_add_if_absent(x, "payer"@, payer_account(), "system_program"@);
    lemma_keys_add_if_absent(a1, "token_program"@, tp, "system_program"@);
    lemma_keys_add_if_absent(a2, "token_program_2022"@, t2, "system_program"@);
    lemma_keys_add_if_absent(a3, "associated_token_program"@, at, "system_program"@);
    lemma_keys_add_if_absent(accs, "system_program"@, sp, "payer"@);
    lemma_keys_add_if_absent(x, "payer"@, payer_account(), "payer"@);
    lemma_keys_add_if_absent(a1, "token_program"@, tp, "payer"@);
    lemma_keys_add_if_absent(a2, "token_program_2022"@, t2, "payer"@);
    lemma_keys_add_if_absent(a3, "associated_token_program"@, at, "payer"@);
    lemma_keys_add_if_absent(accs, "system_program"@, sp, "token_program"@);
    lemma_keys_add_if_absent(x, "payer"@, payer_account(), "token_program"@);
    lemma_keys_add_if_absent(a1, "token_program"@, tp, "token_program"@);
    lemma_keys_add_if_absent(a2, "token_program_2022"@, t2, "token_program"@);
    lemma_keys_add_if_absent(a3, "associated_token_program"@, at, "token_program"@);
    lemma_keys_add_if_absent(accs, "system_program"@, sp, "token_program_2022"@);
    lemma_keys_add_if_absent(x, "payer"@, payer_account(), "token_program_2022"@);
    lemma_keys_add_if_absent(a1, "token_program"@, tp, "token_program_2022"@);
    lemma_keys_add_if_absent(a2, "token_program_2022"@, t2, "token_program_2022"@);
    lemma_keys_add_if_absent(a3, "associated_token_program"@, at, "token_program_2022"@);
    lemma_keys_add_if_absent(accs, "system_program"@, sp, "associated_token_program"@);
    lemma_keys_add_if_absent(x, "payer"@, payer_account(), "associated_token_program"@);
    lemma_keys_add_if_absent(a1, "token_program"@, tp, "associated_token_program"@);
    lemma_keys_add_if_absent(a2, "token_program_2022"@, t2, "associated_token_program"@);
    lemma_keys_add_if_absent(a3, "associated_token_program"@, at, "associated_token_program"@);
}

/// An account that the context creates or writes.
pub open spec fn written(a: RealView) -> bool {
    ||| a[KIND_REAL_INIT as int] is Some
    ||| slot_flag(a, KIND_INIT_IF_NEEDED as int)
    ||| a[KIND_MUT as int] is Some
}

/// The property in slot `k` is the single word `w`.
pub open spec fn slot_word(a: RealView, k: int, w: Seq<char>) -> bool {
    a[k] matches Some(p) && p.value == PropValueV::Expr(seq![TokV::Ident(w)])
}

/// The program accounts a context gets (`add_programs_to_context`):
/// - an account it creates (`init`, or `init_if_needed: true`) brings `system_program` and
///   `payer`;
/// - an account it creates or writes with a `token::mint` and no `token::token_program`,
///   or with a `mint::authority` and no `mint::token_program`, or with an
///   `associated_token::mint` and no `associated_token::token_program`, brings
///   `token_program`; the last also brings `associated_token_program`;
/// - one whose `token::`, `mint::` or `associated_token::token_program` is
///   `token_program_2022` (or `token_program`) brings that program account;
/// and every account there was keeps its name.
pub proof fn law_programs_added(accs: Seq<(Seq<char>, RealView)>, j: int, n: Seq<char>)
    requires
        0 <= j < accs.len(),
    ensures
        keys_of(accs).contains(n) ==> keys_of(spec_add_programs(accs)).contains(n),
        (accs[j].1[KIND_REAL_INIT as int] is Some || slot_flag(accs[j].1, KIND_INIT_IF_NEEDED as int)) ==> keys_of(
            spec_add_programs(accs),
        ).contains("system_program"@) && keys_of(spec_add_programs(accs)).contains("payer"@),
        written(accs[j].1) && accs[j].1[KIND_TOKEN_MINT as int] is Some && accs[j].1[KIND_TOKEN_PROGRAM as int] is None
            ==> keys_of(spec_add_programs(accs)).contains("token_program"@),
        written(accs[j].1) && accs[j].1[KIND_MINT_AUTHORITY as int] is Some && accs[j].1[KIND_MINT_TOKEN_PROGRAM as int]
            is None ==> keys_of(spec_add_programs(accs)).contains("token_program"@),
        written(accs[j].1) && accs[j].1[KIND_ASSOCIATED_TOKEN_MINT as int] is Some
            ==> keys_of(spec_add_programs(accs)).contains("associated_token_program"@),
        written(accs[j].1) && accs[j].1[KIND_ASSOCIATED_TOKEN_MINT as int] is Some
            && accs[j].1[KIND_ASSOCIATED_TOKEN_PROGRAM as int] is None ==> keys_of(spec_add_programs(accs)).contains(
            "token_program"@,
        ),
        written(accs[j].1) && (slot_word(accs[j].1, KIND_TOKEN_PROGRAM as int, "token_program_2022"@) || slot_word(
            accs[j].1,
            KIND_MINT_TOKEN_PROGRAM as int,
            "token_program_2022"@,
        ) || slot_word(accs[j].1, KIND_ASSOCIATED_TOKEN_PROGRAM as int, "token_program_2022"@)) ==> keys_of(
            spec_add_programs(accs),
        ).contains("token_program_2022"@),
        written(accs[j].1) && (slot_word(accs[j].1, KIND_TOKEN_PROGRAM as int, "token_program"@) || slot_word(
            accs[j].1,
            KIND_MINT_TOKEN_PROGRAM as int,
            "token_program"@,
        ) || slot_word(accs[j].1, KIND_ASSOCIATED_TOKEN_PROGRAM as int, "token_program"@)) ==> keys_of(
            spec_add_programs(accs),
        ).contains("token_program"@),
{
    lemma_flags_at(accs, j);
    lemma_programs_named(accs, n);
}

/// Whatever one of the pieces of the arguments holds, the arguments hold.
proof fn lemma_parts_in_metas(v: RealView, x: Seq<TokV>)
    ensures
        crate::render::init_meta(v, KIND_REAL_INIT as int).contains(x) ==> spec_metas(v).contains(x),
        crate::render::flag_init_meta(v, KIND_INIT_IF_NEEDED as int).contains(x) ==> spec_metas(v).contains(x),
        crate::render::seeds_meta(v).contains(x) ==> spec_metas(v).contains(x),
        kv_meta(v, KIND_SPACE as int).contains(x) ==> spec_metas(v).contains(x),
        crate::render::label_meta(v, KIND_MUT as int).contains(x) ==> spec_metas(v).contains(x),
        kv_meta(v, 7).contains(x) ==> spec_metas(v).contains(x),
        kv_meta(v, 8).contains(x) ==> spec_metas(v).contains(x),
        kv_meta(v, 9).contains(x) ==> spec_metas(v).contains(x),
        kv_meta(v, 10).contains(x) ==> spec_metas(v).contains(x),
        kv_meta(v, 11).contains(x) ==> spec_metas(v).contains(x),
        kv_meta(v, 12).contains(x) ==> spec_metas(v).contains(x),
        kv_meta(v, 13).contains(x) ==> spec_metas(v).contains(x),
        kv_meta(v, 14).contains(x) ==> spec_metas(v).contains(x),
        kv_meta(v, 15).contains(x) ==> spec_metas(v).contains(x),
        kv_meta(v, 16).contains(x) ==> spec_metas(v).contains(x),
        kv_meta(v, 17).contains(x) ==> spec_metas(v).contains(x),
        crate::render::constraint_metas(v).contains(x) ==> spec_metas(v).contains(x),
{
    let p0 = crate::render::init_meta(v, KIND_REAL_INIT as int);
    let p1 = crate::render::flag_init_meta(v, KIND_INIT_IF_NEEDED as int);
    let p2 = crate::render::seeds_meta(v);
    let p3 = kv_meta(v, KIND_SPACE as int);
    let p4 = crate::render::label_meta(v, KIND_MUT as int);
    let p5 = kv_meta(v, 7);
    let p6 = kv_meta(v, 8);
    let p7 = kv_meta(v, 9);
    let p8 = kv_meta(v, 10);
    let p9 = kv_meta(v, 11);
    let p10 = kv_meta(v, 12);
    let p11 = kv_meta(v, 13);
    let p12 = kv_meta(v, 14);
    let p13 = kv_meta(v, 15);
    let p14 = kv_meta(v, 16);
    let p15 = kv_meta(v, 17);
    let p16 = crate::render::constraint_metas(v);
    let s0 = p0;
    let s1 = s0 + p1;
    let s2 = s1 + p2;
    let s3 = s2 + p3;
    let s4 = s3 + p4;
    let s5 = s4 + p5;
    let s6 = s5 + p6;
    let s7 = s6 + p7;
    let s8 = s7 + p8;
    let s9 = s8 + p9;
    let s10 = s9 + p10;
    let s11 = s10 + p11;
    let s12 = s11 + p12;
    let s13 = s12 + p13;
    let s14 = s13 + p14;
    let s15 = s14 + p15;
    let s16 = s15 + p16;
    assert(s16 == spec_metas(v));
    lemma_contains_add(s0, p1, x);
    lemma_contains_add(s1, p2, x);
    lemma_contains_add(s2, p3, x);
    lemma_contains_add(s3, p4, x);
    lemma_contains_add(s4, p5, x);
    lemma_contains_add(s5, p6, x);
    lemma_contains_add(s6, p7, x);
    lemma_contains_add(s7, p8, x);
    lemma_contains_add(s8, p9, x);
    lemma_contains_add(s9, p10, x);
    lemma_contains_add(s10, p11, x);
    lemma_contains_add(s11, p12, x);
    lemma_contains_add(s12, p13, x);
    lemma_contains_add(s13, p14, x);
    lemma_contains_add(s14, p15, x);
    lemma_contains_add(s15, p16, x);
}

/// The creation and writing arguments (`compile_metas`): `init` gives its label and
/// `payer = payer`; `init_if_needed: true` gives its label and `payer = payer`; `seeds`
/// gives `seeds = [..]` and `bump`; `mut` gives its label; each constraint `c` gives
/// `constraint = c`.
pub proof fn law_creation_arguments(v: RealView, i: int)
    ensures
        v[KIND_REAL_INIT as int] matches Some(p) ==> spec_metas(v).contains(p.label.path) && spec_metas(v).contains(
            payer_argument(),
        ),
        slot_flag(v, KIND_INIT_IF_NEEDED as int) ==> spec_metas(v).contains(v[KIND_INIT_IF_NEEDED as int]->0.label.path)
            && spec_metas(v).contains(payer_argument()),
        v[KIND_SEEDS as int] matches Some(p) ==> spec_metas(v).contains(kv_argument(p)) && spec_metas(v).contains(
            seq![TokV::Ident("bump"@)],
        ),
        v[KIND_MUT as int] matches Some(p) ==> spec_metas(v).contains(p.label.path),
        (v[KIND_CONSTRAINTS as int] matches Some(p) && p.value matches PropValueV::Exprs(cs) && 0 <= i < cs.len())
            ==> spec_metas(v).contains(
            seq![TokV::Ident("constraint"@), TokV::Punct('=', false)] + v[KIND_CONSTRAINTS as int]->0.value->Exprs_0[i],
        ),
{
    assert(crate::render::payer_meta() =~= payer_argument());
    match v[KIND_REAL_INIT as int] {
        Some(p) => {
            let m = crate::render::init_meta(v, KIND_REAL_INIT as int);
            assert(m[0] == p.label.path && m[1] == payer_argument());
            assert(m.contains(p.label.path) && m.contains(payer_argument()));
            lemma_parts_in_metas(v, p.label.path);
            lemma_parts_in_metas(v, payer_argument());
        },
        None => {},
    }
    if slot_flag(v, KIND_INIT_IF_NEEDED as int) {
        let p = v[KIND_INIT_IF_NEEDED as int]->0;
        let m = crate::render::flag_init_meta(v, KIND_INIT_IF_NEEDED as int);
        assert(m[0] == p.label.path && m[1] == payer_argument());
        assert(m.contains(p.label.path) && m.contains(payer_argument()));
        lemma_parts_in_metas(v, p.label.path);
        lemma_parts_in_metas(v, payer_argument());
    }
    match v[KIND_SEEDS as int] {
        Some(p) => {
            let m = crate::render::seeds_meta(v);
            assert(m[0] == kv_argument(p) && m[1] == seq![TokV::Ident("bump"@)]);
            assert(m.contains(kv_argument(p)) && m.contains(seq![TokV::Ident("bump"@)]));
            lemma_parts_in_metas(v, kv_argument(p));
            lemma_parts_in_metas(v, seq![TokV::Ident("bump"@)]);
        },
        None => {},
    }
    match v[KIND_MUT as int] {
        Some(p) => {
            let m = crate::render::label_meta(v, KIND_MUT as int);
            assert(m[0] == p.label.path);
            assert(m.contains(p.label.path));
            lemma_parts_in_metas(v, p.label.path);
        },
        None => {},
    }
    if v[KIND_CONSTRAINTS as int] matches Some(p) && p.value matches PropValueV::Exprs(cs) && 0 <= i < cs.len() {
        let cs = v[KIND_CONSTRAINTS as int]->0.value->Exprs_0;
        let x = seq![TokV::Ident("constraint"@), TokV::Punct('=', false)] + cs[i];
        let m = crate::render::constraint_metas(v);
        assert(m[i] == x);
        assert(m.contains(x));
        lemma_parts_in_metas(v, x);
    }
}

/// `payer = payer`.
pub open spec fn payer_argument() -> Seq<TokV> {
    seq![TokV::Ident("payer"@), TokV::Punct('=', false), TokV::Ident("payer"@)]
}

/// An account that the context only reads is wrapped in `ReadOnly<..>` in the wrapper
/// struct; one that it creates or writes keeps its field type (`compile_account`).
pub proof fn law_read_only_wrapping(name: Seq<char>, v: RealView)
    ensures
        !written(v) ==> spec_compile_account(name, v).wrapped_ty == seq![
            TokV::Ident("ReadOnly"@),
            TokV::Punct('<', false),
        ] + spec_compile_type(v) + seq![TokV::Punct('>', false)],
        written(v) ==> spec_compile_account(name, v).wrapped_ty == spec_compile_type(v),
{
}

/// The `label = value` argument of a property.
pub open spec fn kv_argument(p: LabelledPropV) -> Seq<TokV> {
    p.label.path + seq![TokV::Punct('=', false)] + value_toks(p.value)
}

/// Every property of an account that becomes a `label = value` argument of
/// `#[account(..)]` (`space`, `token::..`, `associated_token::..`, `mint::..`,
/// `extensions::..`) is among the arguments (`compile_metas`).
pub proof fn law_properties_become_arguments(v: RealView, k: int)
    requires
        k == KIND_SPACE || (KIND_TOKEN_MINT <= k <= KIND_TRANSFER_HOOK_PROGRAM_ID),
        v[k] is Some,
    ensures
        spec_metas(v).contains(kv_argument(v[k]->0)),
{
    let x = kv_argument(v[k]->0);
    let p0 = crate::render::init_meta(v, KIND_REAL_INIT as int);
    let p1 = crate::render::flag_init_meta(v, KIND_INIT_IF_NEEDED as int);
    let p2 = crate::render::seeds_meta(v);
    let p3 = kv_meta(v, KIND_SPACE as int);
    let p4 = crate::render::label_meta(v, KIND_MUT as int);
    let p5 = kv_meta(v, 7);
    let p6 = kv_meta(v, 8);
    let p7 = kv_meta(v, 9);
    let p8 = kv_meta(v, 10);
    let p9 = kv_meta(v, 11);
    let p10 = kv_meta(v, 12);
    let p11 = kv_meta(v, 13);
    let p12 = kv_meta(v, 14);
    let p13 = kv_meta(v, 15);
    let p14 = kv_meta(v, 16);
    let p15 = kv_meta(v, 17);
    let p16 = crate::render::constraint_metas(v);
    let s0 = p0;
    let s1 = s0 + p1;
    let s2 = s1 + p2;
    let s3 = s2 + p3;
    let s4 = s3 + p4;
    let s5 = s4 + p5;
    let s6 = s5 + p6;
    let s7 = s6 + p7;
    let s8 = s7 + p8;
    let s9 = s8 + p9;
    let s10 = s9 + p10;
    let s11 = s10 + p11;
    let s12 = s11 + p12;
    let s13 = s12 + p13;
    let s14 = s13 + p14;
    let s15 = s14 + p15;
    let s16 = s15 + p16;
    assert(s16 == spec_metas(v));
    assert(kv_meta(v, k)[0] == x);
    assert(kv_meta(v, k).contains(x));
    lemma_contains_add(s0, p1, x);
    lemma_contains_add(s1, p2, x);
    lemma_contains_add(s2, p3, x);
    lemma_contains_add(s3, p4, x);
    lemma_contains_add(s4, p5, x);
    lemma_contains_add(s5, p6, x);
    lemma_contains_add(s6, p7, x);
    lemma_contains_add(s7, p8, x);
    lemma_contains_add(s8, p9, x);
    lemma_contains_add(s9, p10, x);
    lemma_contains_add(s10, p11, x);
    lemma_contains_add(s11, p12, x);
    lemma_contains_add(s12, p13, x);
    lemma_contains_add(s13, p14, x);
    lemma_contains_add(s14, p15, x);
    lemma_contains_add(s15, p16, x);
    if k == KIND_SPACE {
        assert(s3.contains(x));
    }

}

/// `name<'info, T>` for a single type name `T`.
pub open spec fn info_type(name: Seq<char>, t: Seq<char>) -> Seq<TokV> {
    seq![
        TokV::Ident(name),
        TokV::Punct('<', false),
        TokV::Punct('\'', true),
        TokV::Ident("info"@),
        TokV::Punct(',', false),
        TokV::Ident(t),
        TokV::Punct('>', false),
    ]
}

/// The account uses the 2022 token program: its `token::`, `associated_token::` or
/// `mint::token_program` is `token_program_2022`.
pub open spec fn uses_token_2022(v: RealView) -> bool {
    ||| slot_word(v, KIND_TOKEN_PROGRAM as int, "token_program_2022"@)
    ||| slot_word(v, KIND_ASSOCIATED_TOKEN_PROGRAM as int, "token_program_2022"@)
    ||| slot_word(v, KIND_MINT_TOKEN_PROGRAM as int, "token_program_2022"@)
}

/// The field type of an account whose type is a single name `T` (`compile_type`):
/// `AccountLoader<'info, T>` when it is zero-copy, else `InterfaceAccount<'info, T>` when
/// it uses the 2022 token program, else `Account<'info, T>`; `boxed: true` puts that in
/// `Box<..>`.
pub proof fn law_field_types(v: RealView, t: Seq<char>)
    requires
        slot_word(v, KIND_ACCOUNT_TYPE as int, t),
    ensures
        !slot_flag(v, KIND_BOXED as int) && slot_flag(v, KIND_ZERO_COPY as int) ==> spec_compile_type(v) == info_type(
            "AccountLoader"@,
            t,
        ),
        !slot_flag(v, KIND_BOXED as int) && !slot_flag(v, KIND_ZERO_COPY as int) && uses_token_2022(v)
            ==> spec_compile_type(v) == info_type("InterfaceAccount"@, t),
        !slot_flag(v, KIND_BOXED as int) && !slot_flag(v, KIND_ZERO_COPY as int) && !uses_token_2022(v)
            ==> spec_compile_type(v) == info_type("Account"@, t),
        slot_flag(v, KIND_BOXED as int) && !slot_flag(v, KIND_ZERO_COPY as int) && uses_token_2022(v)
            ==> spec_compile_type(v) == seq![TokV::Ident("Box"@), TokV::Punct('<', false)] + info_type(
            "InterfaceAccount"@,
            t,
        ) + seq![TokV::Punct('>', false)],
{
    let ty = crate::render::slot_toks(v, KIND_ACCOUNT_TYPE as int);
    assert(ty =~= seq![TokV::Ident(t)]);
    assert(crate::render::is_plain_name(ty));
    assert(crate::render::info_generic("AccountLoader"@, ty) =~= info_type("AccountLoader"@, t));
    assert(crate::render::info_generic("InterfaceAccount"@, ty) =~= info_type("InterfaceAccount"@, t));
    assert(crate::render::info_generic("Account"@, ty) =~= info_type("Account"@, t));
}

/// The list of seeds of an account, none when it has none.
pub open spec fn seed_list(v: RealView) -> Seq<Seq<TokV>> {
    match v[KIND_SEEDS as int] {
        Some(p) => match p.value {
            PropValueV::Exprs(e) => e,
            _ => seq![],
        },
        None => seq![],
    }
}

/// The seed is a byte string literal whose bytes are UTF-8 text.
pub open spec fn utf8_byte_seed(e: Seq<TokV>) -> bool {
    &&& e.len() == 1
    &&& e[0] is Literal
    &&& !has_c_literal(e[0]->Literal_0)
    &&& byte_str_value_of(e[0]->Literal_0) is Some
    &&& valid_utf8(byte_str_value_of(e[0]->Literal_0)->Some_0)
}

/// The name of the constant for such a seed at position `idx`: `KEY_`, its text in upper
/// case with each `-` as `_`, `_`, and the position.
pub open spec fn seed_key(e: Seq<TokV>, idx: int) -> Seq<char> {
    let b = byte_str_value_of(e[0]->Literal_0)->Some_0;
    "KEY_"@ + uppercase_of(decode_utf8(b)).map_values(|c: char| if c == '-' { '_' } else { c }) + "_"@ + decimal(
        idx as nat,
    )
}

proof fn lemma_seed_consts_hold(e: Seq<Seq<TokV>>, idx: int)
    requires
        0 <= idx < e.len(),
        crate::render::seed_const(e[idx], idx as nat) is Some,
    ensures
        crate::render::seed_consts(e).contains(crate::render::seed_const(e[idx], idx as nat)->0),
    decreases e.len(),
{
    let c = crate::render::seed_const(e[idx], idx as nat)->0;
    let front = crate::render::seed_consts(e.drop_last());
    let last_part = match crate::render::seed_const(e.last(), (e.len() - 1) as nat) {
        Some(x) => seq![x],
        None => Seq::<(Seq<char>, TokV)>::empty(),
    };
    assert(crate::render::seed_consts(e) == front + last_part);
    if idx == e.len() - 1 {
        assert(last_part[0] == c);
        lemma_contains_add(front, last_part, c);
    } else {
        assert(e.drop_last()[idx] == e[idx]);
        lemma_seed_consts_hold(e.drop_last(), idx);
        lemma_contains_add(front, last_part, c);
    }
}

/// Each seed written as a byte string literal holding UTF-8 text, at any position `idx`
/// of the seed list, gives a constant named `seed_key` with that literal and is replaced by
/// the constant's name; every other seed stays as written (`extract_account_constants`).
pub proof fn law_seed_constants(v: RealView, idx: int)
    requires
        v.len() == NUM_KINDS,
        0 <= idx < seed_list(v).len(),
    ensures
        seed_list(rewrite_account(v)).len() == seed_list(v).len(),
        utf8_byte_seed(seed_list(v)[idx]) ==> seed_list(rewrite_account(v))[idx] == seq![
            TokV::Ident(seed_key(seed_list(v)[idx], idx)),
        ] && account_consts(v).contains((seed_key(seed_list(v)[idx], idx), seed_list(v)[idx][0])),
        !utf8_byte_seed(seed_list(v)[idx]) ==> seed_list(rewrite_account(v))[idx] == seed_list(v)[idx],
{
    let e = seed_list(v);
    let s = e[idx];
    if utf8_byte_seed(s) {
        let t = s[0]->Literal_0;
        let b = byte_str_value_of(t)->Some_0;
        assert(crate::render::dash_to_underscore(uppercase_of(decode_utf8(b))) =~= uppercase_of(decode_utf8(b)).map_values(
            |c: char| if c == '-' { '_' } else { c },
        ));
        assert(crate::render::seed_const(s, idx as nat) == Some((seed_key(s, idx), s[0])));
        lemma_seed_consts_hold(e, idx);
    }
}

} // verus!
