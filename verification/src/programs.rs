//! The program accounts a context needs: the system program and a payer when some account
//! is created, and the token programs its token accounts use.

use crate::builder::{empty_slots, marker};
use crate::propsets::{
    DynStruct, NUM_KINDS, KIND_ACCOUNT_TYPE, KIND_ASSOCIATED_TOKEN_MINT, KIND_ASSOCIATED_TOKEN_PROGRAM,
    KIND_INIT_IF_NEEDED, KIND_MINT_AUTHORITY, KIND_MINT_TOKEN_PROGRAM, KIND_MUT, KIND_REAL_INIT,
    KIND_TOKEN_MINT, KIND_TOKEN_PROGRAM,
};
use crate::token::{Tok, TokV, toks_view};
use crate::types::{
    AccountType, AssociatedTokenMint, AssociatedTokenProgram, BuiltAccount, InitIfNeeded, KeyedVec,
    LabelledProp, LabelledPropV, MintAuthority, MintTokenProgram, Mut, PropLabel, PropValue, PropValueV,
    RealAccountProps, RealInit, RealView, TokenMint, TokenProgram, is_ident_value, keys_of, prop_flag,
    real_props, slot_flag, value_is_ident, word_label,
};
use vstd::prelude::*;

verus! {

/// Which program accounts are needed so far.
pub struct ProgramFlags {
    pub sys: bool,
    pub token: bool,
    pub token2022: bool,
    pub ata: bool,
}

/// The slot `k` holds a property whose value is the identifier `word`.
pub open spec fn slot_ident(a: RealView, k: int, word: Seq<char>) -> bool {
    a[k] matches Some(p) && is_ident_value(p.value, word)
}

/// What one account adds to the flags.  An account that is created (`init`, or
/// `init_if_needed: true`) needs the system program.  One that is created or written
/// needs the associated token program when it has an associated token mint, and a token
/// program: the one its `token_program` properties name, or else the classic one when
/// it has an associated token program need so far, a token mint or a mint authority.
pub open spec fn flags_step(f: ProgramFlags, a: RealView) -> ProgramFlags {
    let init = a[KIND_REAL_INIT as int] is Some || slot_flag(a, KIND_INIT_IF_NEEDED as int);
    let sys = f.sys || init;
    if init || a[KIND_MUT as int] is Some {
        let ata = f.ata || a[KIND_ASSOCIATED_TOKEN_MINT as int] is Some;
        let (t1, t2) = if a[KIND_ASSOCIATED_TOKEN_PROGRAM as int] is Some {
            (
                f.token || slot_ident(a, KIND_ASSOCIATED_TOKEN_PROGRAM as int, "token_program"@),
                f.token2022 || slot_ident(a, KIND_ASSOCIATED_TOKEN_PROGRAM as int, "token_program_2022"@),
            )
        } else {
            (f.token || ata, f.token2022)
        };
        let (t1, t2) = if a[KIND_TOKEN_PROGRAM as int] is Some {
            (
                t1 || slot_ident(a, KIND_TOKEN_PROGRAM as int, "token_program"@),
                t2 || slot_ident(a, KIND_TOKEN_PROGRAM as int, "token_program_2022"@),
            )
        } else {
            (t1 || a[KIND_TOKEN_MINT as int] is Some, t2)
        };
        let (t1, t2) = if a[KIND_MINT_TOKEN_PROGRAM as int] is Some {
            (
                t1 || slot_ident(a, KIND_MINT_TOKEN_PROGRAM as int, "token_program"@),
                t2 || slot_ident(a, KIND_MINT_TOKEN_PROGRAM as int, "token_program_2022"@),
            )
        } else {
            (t1 || a[KIND_MINT_AUTHORITY as int] is Some, t2)
        };
        ProgramFlags { sys, token: t1, token2022: t2, ata }
    } else {
        ProgramFlags { sys, token: f.token, token2022: f.token2022, ata: f.ata }
    }
}

/// The flags after walking the accounts in order.
pub open spec fn program_flags(accs: Seq<(Seq<char>, RealView)>) -> ProgramFlags
    decreases accs.len(),
{
    if accs.len() == 0 {
        ProgramFlags { sys: false, token: false, token2022: false, ata: false }
    } else {
        flags_step(program_flags(accs.drop_last()), accs.last().1)
    }
}

/// The type `Program<'info, inner>`.
pub open spec fn program_type(inner: Seq<char>) -> Seq<TokV> {
    seq![
        TokV::Ident("Program"@),
        TokV::Punct('<', false),
        TokV::Punct('\'', true),
        TokV::Ident("info"@),
        TokV::Punct(',', false),
        TokV::Ident(inner),
        TokV::Punct('>', false),
    ]
}

/// The type `Signer<'info>`.
pub open spec fn signer_type() -> Seq<TokV> {
    seq![
        TokV::Ident("Signer"@),
        TokV::Punct('<', false),
        TokV::Punct('\'', true),
        TokV::Ident("info"@),
        TokV::Punct('>', false),
    ]
}

/// An added account: only its type, labelled with the account's name.
pub open spec fn typed_account(name: Seq<char>, ty: Seq<TokV>) -> RealView {
    empty_slots::<LabelledPropV>().update(
        KIND_ACCOUNT_TYPE as int,
        Some(LabelledPropV { label: word_label(name), kind: KIND_ACCOUNT_TYPE as nat, value: PropValueV::Expr(ty) }),
    )
}

/// The payer account: a mutable signer.
pub open spec fn payer_account() -> RealView {
    typed_account("payer"@, signer_type()).update(KIND_MUT as int, Some(marker(KIND_MUT as nat, "mut"@)))
}

/// Adds the account unless its name is taken.
pub open spec fn add_if_absent(
    accs: Seq<(Seq<char>, RealView)>,
    name: Seq<char>,
    acc: RealView,
) -> Seq<(Seq<char>, RealView)> {
    if keys_of(accs).contains(name) {
        accs
    } else {
        accs.push((name, acc))
    }
}

/// The accounts with the needed program accounts added, in this order and each unless its
/// name is taken: `system_program` and `payer`, `token_program`, `token_program_2022`,
/// `associated_token_program`.
pub open spec fn spec_add_programs(accs: Seq<(Seq<char>, RealView)>) -> Seq<(Seq<char>, RealView)> {
    let f = program_flags(accs);
    let a = if f.sys {
        add_if_absent(
            add_if_absent(accs, "system_program"@, typed_account("system_program"@, program_type("System"@))),
            "payer"@,
            payer_account(),
        )
    } else {
        accs
    };
    let a = if f.token {
        add_if_absent(a, "token_program"@, typed_account("token_program"@, program_type("Token"@)))
    } else {
        a
    };
    let a = if f.token2022 {
        add_if_absent(
            a,
            "token_program_2022"@,
            typed_account("token_program_2022"@, program_type("Token2022"@)),
        )
    } else {
        a
    };
    if f.ata {
        add_if_absent(
            a,
            "associated_token_program"@,
            typed_account("associated_token_program"@, program_type("AssociatedToken"@)),
        )
    } else {
        a
    }
}

/// `b` is `a` with typed accounts added after it.
pub open spec fn extends_typed(b: Seq<(Seq<char>, RealView)>, a: Seq<(Seq<char>, RealView)>) -> bool {
    &&& b.len() >= a.len()
    &&& forall|j: int| 0 <= j < a.len() ==> #[trigger] b[j] == a[j]
    &&& forall|j: int| a.len() <= j < b.len() ==> (#[trigger] b[j]).1[KIND_ACCOUNT_TYPE as int] is Some
}

proof fn lemma_add_if_absent_extends(
    a: Seq<(Seq<char>, RealView)>,
    base: Seq<(Seq<char>, RealView)>,
    name: Seq<char>,
    acc: RealView,
)
    requires
        extends_typed(a, base),
        acc[KIND_ACCOUNT_TYPE as int] is Some,
    ensures
        extends_typed(add_if_absent(a, name, acc), base),
{
    let b = add_if_absent(a, name, acc);
    if !keys_of(a).contains(name) {
        assert forall|j: int| base.len() <= j < b.len() implies (#[trigger] b[j]).1[KIND_ACCOUNT_TYPE as int] is Some by {
            if j < a.len() {
                assert(b[j] == a[j]);
            }
        }
    }
}

/// Adding the program accounts keeps the accounts there were, in place, and adds only
/// accounts with a type.
pub proof fn lemma_add_programs_extends(accs: Seq<(Seq<char>, RealView)>)
    ensures
        extends_typed(spec_add_programs(accs), accs),
{
    let ty = KIND_ACCOUNT_TYPE as int;
    assert(empty_slots::<LabelledPropV>().len() == NUM_KINDS);
    assert(typed_account("system_program"@, program_type("System"@))[ty] is Some);
    assert(payer_account()[ty] is Some);
    assert(typed_account("token_program"@, program_type("Token"@))[ty] is Some);
    assert(typed_account("token_program_2022"@, program_type("Token2022"@))[ty] is Some);
    assert(typed_account("associated_token_program"@, program_type("AssociatedToken"@))[ty] is Some);
    let f = program_flags(accs);
    let a0 = accs;
    let a1 = if f.sys {
        let x = add_if_absent(accs, "system_program"@, typed_account("system_program"@, program_type("System"@)));
        lemma_add_if_absent_extends(accs, accs, "system_program"@, typed_account("system_program"@, program_type("System"@)));
        lemma_add_if_absent_extends(x, accs, "payer"@, payer_account());
        add_if_absent(x, "payer"@, payer_account())
    } else {
        accs
    };
    let a2 = if f.token {
        lemma_add_if_absent_extends(a1, accs, "token_program"@, typed_account("token_program"@, program_type("Token"@)));
        add_if_absent(a1, "token_program"@, typed_account("token_program"@, program_type("Token"@)))
    } else {
        a1
    };
    let a3 = if f.token2022 {
        lemma_add_if_absent_extends(a2, accs, "token_program_2022"@, typed_account("token_program_2022"@, program_type("Token2022"@)));
        add_if_absent(a2, "token_program_2022"@, typed_account("token_program_2022"@, program_type("Token2022"@)))
    } else {
        a2
    };
    if f.ata {
        lemma_add_if_absent_extends(a3, accs, "associated_token_program"@, typed_account("associated_token_program"@, program_type("AssociatedToken"@)));
    }
}

fn ident(s: &str) -> (r: Tok)
    ensures
        r@ == TokV::Ident(s@),
{
    Tok::Ident(s.to_owned())
}

fn program_type_toks(inner: &str) -> (r: Vec<Tok>)
    ensures
        toks_view(r@) == program_type(inner@),
{
    let r = vec![
        ident("Program"),
        Tok::Punct('<', false),
        Tok::Punct('\'', true),
        ident("info"),
        Tok::Punct(',', false),
        ident(inner),
        Tok::Punct('>', false),
    ];
    assert(toks_view(r@) =~= program_type(inner@));
    r
}

fn signer_type_toks() -> (r: Vec<Tok>)
    ensures
        toks_view(r@) == signer_type(),
{
    let r = vec![
        ident("Signer"),
        Tok::Punct('<', false),
        Tok::Punct('\'', true),
        ident("info"),
        Tok::Punct('>', false),
    ];
    assert(toks_view(r@) =~= signer_type());
    r
}

fn typed_account_exec(name: &str, ty: Vec<Tok>) -> (r: BuiltAccount)
    ensures
        r.wf(),
        r@ == typed_account(name@, toks_view(ty@)),
{
    let mut account = DynStruct::<RealAccountProps>::new();
    assert(real_props()[5] == KIND_ACCOUNT_TYPE);
    account.insert::<AccountType>(
        LabelledProp { label: PropLabel::from_str(name), kind: KIND_ACCOUNT_TYPE, value: PropValue::Expr(ty) },
    );
    assert(account@ =~= typed_account(name@, toks_view(ty@)));
    BuiltAccount(account)
}

fn add_if_absent_exec(accounts: &mut KeyedVec<BuiltAccount>, name: &str, acc: BuiltAccount)
    requires
        acc.wf(),
        forall|j: int| 0 <= j < old(accounts).0@.len() ==> (#[trigger] old(accounts).0@[j]).1.wf(),
    ensures
        final(accounts)@ == add_if_absent(old(accounts)@, name@, acc@),
        forall|j: int| 0 <= j < final(accounts).0@.len() ==> (#[trigger] final(accounts).0@[j]).1.wf(),
{
    if !accounts.has(name) {
        let ghost pre = accounts@;
        let ghost av = acc@;
        accounts.0.push((name.to_owned(), acc));
        assert(accounts@ =~= pre.push((name@, av)));
    }
}

fn value_ident(a: &BuiltAccount, k: usize, word: &str) -> (r: bool)
    requires
        a.wf(),
        k < NUM_KINDS,
    ensures
        r == slot_ident(a@, k as int, word@),
{
    match a.0.get_dyn(k) {
        Some(p) => value_is_ident(&p.value, word),
        None => false,
    }
}

/// Adds the program accounts that the context's accounts need (see `spec_add_programs`).
pub fn add_programs_to_context(accounts: &mut KeyedVec<BuiltAccount>)
    requires
        forall|j: int| 0 <= j < old(accounts).0@.len() ==> (#[trigger] old(accounts).0@[j]).1.wf(),
    ensures
        final(accounts)@ == spec_add_programs(old(accounts)@),
        forall|j: int| 0 <= j < final(accounts).0@.len() ==> (#[trigger] final(accounts).0@[j]).1.wf(),
{
    let mut sys = false;
    let mut token = false;
    let mut token2022 = false;
    let mut ata = false;
    let ghost accs = accounts@;

    let mut i: usize = 0;
    while i < accounts.0.len()
        invariant
            i <= accounts@.len(),
            accs == accounts@,
            forall|j: int| 0 <= j < accounts.0@.len() ==> (#[trigger] accounts.0@[j]).1.wf(),
            program_flags(accs.take(i as int)) == (ProgramFlags { sys, token, token2022, ata }),
        decreases accounts@.len() - i,
    {
        let acc = &accounts.0[i].1;
        assert(acc@ == accs[i as int].1);
        assert(accs.take(i + 1).drop_last() == accs.take(i as int));
        let init = acc.0.has::<RealInit>() || prop_flag::<InitIfNeeded>(&acc.0);
        sys = sys || init;
        let is_mut = acc.0.has::<Mut>();
        if init || is_mut {
            ata = ata || acc.0.has::<AssociatedTokenMint>();
            if acc.0.has::<AssociatedTokenProgram>() {
                token = token || value_ident(acc, KIND_ASSOCIATED_TOKEN_PROGRAM, "token_program");
                token2022 = token2022 || value_ident(acc, KIND_ASSOCIATED_TOKEN_PROGRAM, "token_program_2022");
            } else {
                token = token || ata;
            }
            if acc.0.has::<TokenProgram>() {
                token = token || value_ident(acc, KIND_TOKEN_PROGRAM, "token_program");
                token2022 = token2022 || value_ident(acc, KIND_TOKEN_PROGRAM, "token_program_2022");
            } else {
                token = token || acc.0.has::<TokenMint>();
            }
            if acc.0.has::<MintTokenProgram>() {
                token = token || value_ident(acc, KIND_MINT_TOKEN_PROGRAM, "token_program");
                token2022 = token2022 || value_ident(acc, KIND_MINT_TOKEN_PROGRAM, "token_program_2022");
            } else {
                token = token || acc.0.has::<MintAuthority>();
            }
        }
        i = i + 1;
    }
    assert(accs.take(accs.len() as int) == accs);

    if sys {
        add_if_absent_exec(accounts, "system_program", typed_account_exec("system_program", program_type_toks("System")));
        let mut payer = typed_account_exec("payer", signer_type_toks());
        assert(real_props()[20] == KIND_MUT);
        payer.0.insert::<Mut>(LabelledProp { label: PropLabel::from_str("mut"), kind: KIND_MUT, value: PropValue::Unit });
        add_if_absent_exec(accounts, "payer", payer);
    }
    if token {
        add_if_absent_exec(accounts, "token_program", typed_account_exec("token_program", program_type_toks("Token")));
    }
    if token2022 {
        add_if_absent_exec(
            accounts,
            "token_program_2022",
            typed_account_exec("token_program_2022", program_type_toks("Token2022")),
        );
    }
    if ata {
        add_if_absent_exec(
            accounts,
            "associated_token_program",
            typed_account_exec("associated_token_program", program_type_toks("AssociatedToken")),
        );
    }
}

} // verus!
