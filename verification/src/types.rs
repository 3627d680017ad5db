//! The data of the DSL: property labels and values, the property sets, keyed lists,
//! parsed documents and built contexts.

use crate::propsets::{DynStruct, IsProp, NUM_KINDS, allowed, lemma_kind_labels_distinct, spec_kind_label, opt_view, PropItem, PropOf, PropSet, find_kind_in, kinds_view, kind_label, KIND_BOXED, KIND_ZERO_COPY, KIND_SPACE, KIND_CHECK, KIND_CONSTRAINTS, KIND_ACCOUNT_TYPE, KIND_SEEDS, KIND_TOKEN_MINT, KIND_TOKEN_AUTHORITY, KIND_TOKEN_PROGRAM, KIND_ASSOCIATED_TOKEN_MINT, KIND_ASSOCIATED_TOKEN_AUTHORITY, KIND_ASSOCIATED_TOKEN_PROGRAM, KIND_MINT_AUTHORITY, KIND_MINT_DECIMALS, KIND_MINT_TOKEN_PROGRAM, KIND_TRANSFER_HOOK_AUTHORITY, KIND_TRANSFER_HOOK_PROGRAM_ID, KIND_REAL_INIT, KIND_INIT_IF_NEEDED, KIND_MUT, KIND_DEPENDS, KIND_INIT, KIND_NO_INIT, KIND_CONDITIONAL};
use crate::text::{str_eq, string_of};
use crate::token::{Tok, TokV, dup_toks, dup_tok_lists, dup_strings, toks_view, tok_lists_view, strings_view, tokens_text, toks_text};
use vstd::prelude::*;

verus! {

/// The property kind `boxed`.
pub struct Boxed;

impl IsProp for Boxed {
    open spec fn spec_kind() -> nat {
        KIND_BOXED as nat
    }

    fn kind() -> (k: usize) {
        KIND_BOXED
    }

    fn label() -> &'static str {
        kind_label(KIND_BOXED)
    }
}

impl<S: PropSet> PropOf<S> for Boxed {

}

/// The property kind `zero_copy`.
pub struct ZeroCopy;

impl IsProp for ZeroCopy {
    open spec fn spec_kind() -> nat {
        KIND_ZERO_COPY as nat
    }

    fn kind() -> (k: usize) {
        KIND_ZERO_COPY
    }

    fn label() -> &'static str {
        kind_label(KIND_ZERO_COPY)
    }
}

impl<S: PropSet> PropOf<S> for ZeroCopy {

}

/// The property kind `space`.
pub struct Space;

impl IsProp for Space {
    open spec fn spec_kind() -> nat {
        KIND_SPACE as nat
    }

    fn kind() -> (k: usize) {
        KIND_SPACE
    }

    fn label() -> &'static str {
        kind_label(KIND_SPACE)
    }
}

impl<S: PropSet> PropOf<S> for Space {

}

/// The property kind `check`.
pub struct Check;

impl IsProp for Check {
    open spec fn spec_kind() -> nat {
        KIND_CHECK as nat
    }

    fn kind() -> (k: usize) {
        KIND_CHECK
    }

    fn label() -> &'static str {
        kind_label(KIND_CHECK)
    }
}

impl<S: PropSet> PropOf<S> for Check {

}

/// The property kind `constraints`.
pub struct Constraints;

impl IsProp for Constraints {
    open spec fn spec_kind() -> nat {
        KIND_CONSTRAINTS as nat
    }

    fn kind() -> (k: usize) {
        KIND_CONSTRAINTS
    }

    fn label() -> &'static str {
        kind_label(KIND_CONSTRAINTS)
    }
}

impl<S: PropSet> PropOf<S> for Constraints {

}

/// The property kind `type`.
pub struct AccountType;

impl IsProp for AccountType {
    open spec fn spec_kind() -> nat {
        KIND_ACCOUNT_TYPE as nat
    }

    fn kind() -> (k: usize) {
        KIND_ACCOUNT_TYPE
    }

    fn label() -> &'static str {
        kind_label(KIND_ACCOUNT_TYPE)
    }
}

impl<S: PropSet> PropOf<S> for AccountType {

}

/// The property kind `seeds`.
pub struct Seeds;

impl IsProp for Seeds {
    open spec fn spec_kind() -> nat {
        KIND_SEEDS as nat
    }

    fn kind() -> (k: usize) {
        KIND_SEEDS
    }

    fn label() -> &'static str {
        kind_label(KIND_SEEDS)
    }
}

impl<S: PropSet> PropOf<S> for Seeds {

}

/// The property kind `token :: mint`.
pub struct TokenMint;

impl IsProp for TokenMint {
    open spec fn spec_kind() -> nat {
        KIND_TOKEN_MINT as nat
    }

    fn kind() -> (k: usize) {
        KIND_TOKEN_MINT
    }

    fn label() -> &'static str {
        kind_label(KIND_TOKEN_MINT)
    }
}

impl<S: PropSet> PropOf<S> for TokenMint {

}

/// The property kind `token :: authority`.
pub struct TokenAuthority;

impl IsProp for TokenAuthority {
    open spec fn spec_kind() -> nat {
        KIND_TOKEN_AUTHORITY as nat
    }

    fn kind() -> (k: usize) {
        KIND_TOKEN_AUTHORITY
    }

    fn label() -> &'static str {
        kind_label(KIND_TOKEN_AUTHORITY)
    }
}

impl<S: PropSet> PropOf<S> for TokenAuthority {

}

/// The property kind `token :: token_program`.
pub struct TokenProgram;

impl IsProp for TokenProgram {
    open spec fn spec_kind() -> nat {
        KIND_TOKEN_PROGRAM as nat
    }

    fn kind() -> (k: usize) {
        KIND_TOKEN_PROGRAM
    }

    fn label() -> &'static str {
        kind_label(KIND_TOKEN_PROGRAM)
    }
}

impl<S: PropSet> PropOf<S> for TokenProgram {

}

/// The property kind `associated_token :: mint`.
pub struct AssociatedTokenMint;

impl IsProp for AssociatedTokenMint {
    open spec fn spec_kind() -> nat {
        KIND_ASSOCIATED_TOKEN_MINT as nat
    }

    fn kind() -> (k: usize) {
        KIND_ASSOCIATED_TOKEN_MINT
    }

    fn label() -> &'static str {
        kind_label(KIND_ASSOCIATED_TOKEN_MINT)
    }
}

impl<S: PropSet> PropOf<S> for AssociatedTokenMint {

}

/// The property kind `associated_token :: authority`.
pub struct AssociatedTokenAuthority;

impl IsProp for AssociatedTokenAuthority {
    open spec fn spec_kind() -> nat {
        KIND_ASSOCIATED_TOKEN_AUTHORITY as nat
    }

    fn kind() -> (k: usize) {
        KIND_ASSOCIATED_TOKEN_AUTHORITY
    }

    fn label() -> &'static str {
        kind_label(KIND_ASSOCIATED_TOKEN_AUTHORITY)
    }
}

impl<S: PropSet> PropOf<S> for AssociatedTokenAuthority {

}

/// The property kind `associated_token :: token_program`.
pub struct AssociatedTokenProgram;

impl IsProp for AssociatedTokenProgram {
    open spec fn spec_kind() -> nat {
        KIND_ASSOCIATED_TOKEN_PROGRAM as nat
    }

    fn kind() -> (k: usize) {
        KIND_ASSOCIATED_TOKEN_PROGRAM
    }

    fn label() -> &'static str {
        kind_label(KIND_ASSOCIATED_TOKEN_PROGRAM)
    }
}

impl<S: PropSet> PropOf<S> for AssociatedTokenProgram {

}

/// The property kind `mint :: authority`.
pub struct MintAuthority;

impl IsProp for MintAuthority {
    open spec fn spec_kind() -> nat {
        KIND_MINT_AUTHORITY as nat
    }

    fn kind() -> (k: usize) {
        KIND_MINT_AUTHORITY
    }

    fn label() -> &'static str {
        kind_label(KIND_MINT_AUTHORITY)
    }
}

impl<S: PropSet> PropOf<S> for MintAuthority {

}

/// The property kind `mint :: decimals`.
pub struct MintDecimals;

impl IsProp for MintDecimals {
    open spec fn spec_kind() -> nat {
        KIND_MINT_DECIMALS as nat
    }

    fn kind() -> (k: usize) {
        KIND_MINT_DECIMALS
    }

    fn label() -> &'static str {
        kind_label(KIND_MINT_DECIMALS)
    }
}

impl<S: PropSet> PropOf<S> for MintDecimals {

}

/// The property kind `mint :: token_program`.
pub struct MintTokenProgram;

impl IsProp for MintTokenProgram {
    open spec fn spec_kind() -> nat {
        KIND_MINT_TOKEN_PROGRAM as nat
    }

    fn kind() -> (k: usize) {
        KIND_MINT_TOKEN_PROGRAM
    }

    fn label() -> &'static str {
        kind_label(KIND_MINT_TOKEN_PROGRAM)
    }
}

impl<S: PropSet> PropOf<S> for MintTokenProgram {

}

/// The property kind `extensions :: transfer_hook :: authority`.
pub struct TransferHookAuthority;

impl IsProp for TransferHookAuthority {
    open spec fn spec_kind() -> nat {
        KIND_TRANSFER_HOOK_AUTHORITY as nat
    }

    fn kind() -> (k: usize) {
        KIND_TRANSFER_HOOK_AUTHORITY
    }

    fn label() -> &'static str {
        kind_label(KIND_TRANSFER_HOOK_AUTHORITY)
    }
}

impl<S: PropSet> PropOf<S> for TransferHookAuthority {

}

/// The property kind `extensions :: transfer_hook :: program_id`.
pub struct TransferHookProgramId;

impl IsProp for TransferHookProgramId {
    open spec fn spec_kind() -> nat {
        KIND_TRANSFER_HOOK_PROGRAM_ID as nat
    }

    fn kind() -> (k: usize) {
        KIND_TRANSFER_HOOK_PROGRAM_ID
    }

    fn label() -> &'static str {
        kind_label(KIND_TRANSFER_HOOK_PROGRAM_ID)
    }
}

impl<S: PropSet> PropOf<S> for TransferHookProgramId {

}

/// The property kind `init`.
pub struct RealInit;

impl IsProp for RealInit {
    open spec fn spec_kind() -> nat {
        KIND_REAL_INIT as nat
    }

    fn kind() -> (k: usize) {
        KIND_REAL_INIT
    }

    fn label() -> &'static str {
        kind_label(KIND_REAL_INIT)
    }
}

impl<S: PropSet> PropOf<S> for RealInit {

}

/// The property kind `init_if_needed`.
pub struct InitIfNeeded;

impl IsProp for InitIfNeeded {
    open spec fn spec_kind() -> nat {
        KIND_INIT_IF_NEEDED as nat
    }

    fn kind() -> (k: usize) {
        KIND_INIT_IF_NEEDED
    }

    fn label() -> &'static str {
        kind_label(KIND_INIT_IF_NEEDED)
    }
}

impl<S: PropSet> PropOf<S> for InitIfNeeded {

}

/// The property kind `mut`.
pub struct Mut;

impl IsProp for Mut {
    open spec fn spec_kind() -> nat {
        KIND_MUT as nat
    }

    fn kind() -> (k: usize) {
        KIND_MUT
    }

    fn label() -> &'static str {
        kind_label(KIND_MUT)
    }
}

impl<S: PropSet> PropOf<S> for Mut {

}

/// The property kind `depends`.
pub struct Depends;

impl IsProp for Depends {
    open spec fn spec_kind() -> nat {
        KIND_DEPENDS as nat
    }

    fn kind() -> (k: usize) {
        KIND_DEPENDS
    }

    fn label() -> &'static str {
        kind_label(KIND_DEPENDS)
    }
}

impl<S: PropSet> PropOf<S> for Depends {

}

/// The property kind `init`.
pub struct Init;

impl IsProp for Init {
    open spec fn spec_kind() -> nat {
        KIND_INIT as nat
    }

    fn kind() -> (k: usize) {
        KIND_INIT
    }

    fn label() -> &'static str {
        kind_label(KIND_INIT)
    }
}

impl<S: PropSet> PropOf<S> for Init {

}

/// The property kind `noinit`.
pub struct NoInit;

impl IsProp for NoInit {
    open spec fn spec_kind() -> nat {
        KIND_NO_INIT as nat
    }

    fn kind() -> (k: usize) {
        KIND_NO_INIT
    }

    fn label() -> &'static str {
        kind_label(KIND_NO_INIT)
    }
}

impl<S: PropSet> PropOf<S> for NoInit {

}

/// The property kind `if`.
pub struct ConditionalProps;

impl IsProp for ConditionalProps {
    open spec fn spec_kind() -> nat {
        KIND_CONDITIONAL as nat
    }

    fn kind() -> (k: usize) {
        KIND_CONDITIONAL
    }

    fn label() -> &'static str {
        kind_label(KIND_CONDITIONAL)
    }
}

impl<S: PropSet> PropOf<S> for ConditionalProps {

}

/// The label a property was written with: its text (`token :: mint` for a path) and its
/// tokens.
pub struct PropLabel {
    pub label: String,
    pub path: Vec<Tok>,
}

pub struct PropLabelV {
    pub text: Seq<char>,
    pub path: Seq<TokV>,
}

impl View for PropLabel {
    type V = PropLabelV;

    open spec fn view(&self) -> PropLabelV {
        PropLabelV { text: self.label@, path: toks_view(self.path@) }
    }
}

/// The label that is the single word `w`.
pub open spec fn word_label(w: Seq<char>) -> PropLabelV {
    PropLabelV { text: w, path: seq![TokV::Ident(w)] }
}

impl PropLabel {
    /// The label that is the single word `label`.
    pub fn new_from_string(label: String) -> (r: PropLabel)
        ensures
            r@ == word_label(label@),
    {
        let path = vec![Tok::Ident(label.clone())];
        let r = PropLabel { label, path };
        assert(r@.path =~= seq![TokV::Ident(label@)]);
        r
    }

    /// The label that is the single word `label`.
    pub fn from_str(label: &str) -> (r: PropLabel)
        ensures
            r@ == word_label(label@),
    {
        PropLabel::new_from_string(label.to_owned())
    }

    /// The label of a written path: its tokens, and their text.
    pub fn from_path(path: Vec<Tok>) -> (r: PropLabel)
        ensures
            r@.text == toks_text(toks_view(path@)),
            r@.path == toks_view(path@),
    {
        let text = tokens_text(path.as_slice());
        PropLabel { label: string_of(text.as_slice()), path }
    }

    pub fn dup(&self) -> (r: PropLabel)
        ensures
            r@ == self@,
    {
        PropLabel { label: self.label.clone(), path: dup_toks(self.path.as_slice()) }
    }
}

/// The value of a property.
pub enum PropValue {
    /// An expression, a type path, or a literal: its tokens.
    Expr(Vec<Tok>),
    /// A boolean literal.
    Flag(bool),
    /// A list of expressions.
    Exprs(Vec<Vec<Tok>>),
    /// No value: the property is present or not.
    Unit,
}

pub enum PropValueV {
    Expr(Seq<TokV>),
    Flag(bool),
    Exprs(Seq<Seq<TokV>>),
    Unit,
}

impl View for PropValue {
    type V = PropValueV;

    open spec fn view(&self) -> PropValueV {
        match self {
            PropValue::Expr(t) => PropValueV::Expr(toks_view(t@)),
            PropValue::Flag(b) => PropValueV::Flag(*b),
            PropValue::Exprs(v) => PropValueV::Exprs(tok_lists_view(v@)),
            PropValue::Unit => PropValueV::Unit,
        }
    }
}

impl PropValue {
    pub fn dup(&self) -> (r: PropValue)
        ensures
            r@ == self@,
    {
        match self {
            PropValue::Expr(t) => PropValue::Expr(dup_toks(t.as_slice())),
            PropValue::Flag(b) => PropValue::Flag(*b),
            PropValue::Exprs(v) => PropValue::Exprs(dup_tok_lists(v)),
            PropValue::Unit => PropValue::Unit,
        }
    }
}

/// Whether a value is the literal `true`.
pub open spec fn flag_of(v: PropValueV) -> bool {
    v matches PropValueV::Flag(b) && b
}

/// A property: its label, its kind and its value.
pub struct LabelledProp {
    pub label: PropLabel,
    pub kind: usize,
    pub value: PropValue,
}

pub struct LabelledPropV {
    pub label: PropLabelV,
    pub kind: nat,
    pub value: PropValueV,
}

impl View for LabelledProp {
    type V = LabelledPropV;

    open spec fn view(&self) -> LabelledPropV {
        LabelledPropV { label: self.label@, kind: self.kind as nat, value: self.value@ }
    }
}

impl PropItem for LabelledProp {
    open spec fn spec_kind(&self) -> nat {
        self.kind as nat
    }

    open spec fn spec_view_kind(v: LabelledPropV) -> nat {
        v.kind
    }

    fn kind(&self) -> (k: usize) {
        self.kind
    }

    proof fn lemma_kind(&self) {
    }

    open spec fn item_wf(&self) -> bool {
        true
    }

    fn dup(&self) -> (r: Self) {
        LabelledProp { label: self.label.dup(), kind: self.kind, value: self.value.dup() }
    }
}

/// An account argument of a context (`init`, `mut`, ...).
pub struct AccountArg(pub String);

impl View for AccountArg {
    type V = Seq<char>;

    open spec fn view(&self) -> Seq<char> {
        self.0@
    }
}

impl AccountArg {
    pub fn dup(&self) -> (r: AccountArg)
        ensures
            r@ == self@,
    {
        AccountArg(self.0.clone())
    }
}

pub open spec fn args_view(v: Seq<AccountArg>) -> Seq<Seq<char>> {
    v.map_values(|a: AccountArg| a@)
}

/// A copy of a list of account arguments.
pub fn dup_args(v: &Vec<AccountArg>) -> (r: Vec<AccountArg>)
    ensures
        args_view(r@) == args_view(v@),
{
    let mut out: Vec<AccountArg> = Vec::new();
    let mut i: usize = 0;
    while i < v.len()
        invariant
            i <= v@.len(),
            out@.len() == i,
            forall|j: int| 0 <= j < i ==> (#[trigger] out@[j])@ == v@[j]@,
        decreases v@.len() - i,
    {
        out.push(v[i].dup());
        i = i + 1;
    }
    assert(args_view(out@) =~= args_view(v@));
    out
}

/// The properties that an account can have once built, but for the init markers.
pub struct RealAccountPropsSansInit;

/// The properties of a built account.
pub struct RealAccountProps;

/// The properties of an account definition as written.
pub struct ParseAccountProps;

pub open spec fn sans_init_props() -> Seq<nat> {
    seq![0nat, 1, 2, 3, 4, 5, 6, 7, 8, 9, 10, 11, 12, 13, 14, 15, 16, 17]
}

fn sans_init_props_vec() -> (v: Vec<usize>)
    ensures
        v@.len() == sans_init_props().len(),
        forall|i: int| 0 <= i < v@.len() ==> v@[i] as nat == #[trigger] sans_init_props()[i],
{
    vec![0, 1, 2, 3, 4, 5, 6, 7, 8, 9, 10, 11, 12, 13, 14, 15, 16, 17]
}

/// The shared kinds are the slots below 18, in order.
pub proof fn lemma_sans_init_props()
    ensures
        sans_init_props().len() == 18,
        forall|i: int| 0 <= i < 18 ==> #[trigger] sans_init_props()[i] == i,
        forall|k: nat| #[trigger] sans_init_props().contains(k) <==> k < 18,
{
    assert forall|k: nat| k < 18 implies #[trigger] sans_init_props().contains(k) by {
        assert(sans_init_props()[k as int] == k);
    }
}

pub open spec fn real_props() -> Seq<nat> {
    sans_init_props() + seq![18nat, 19, 20]
}

/// The kinds of a built account are the slots below 21.
pub proof fn lemma_real_props_allowed(k: nat)
    requires
        real_props().contains(k),
    ensures
        k < 21,
{
    lemma_sans_init_props();
    let w = choose|w: int| 0 <= w < real_props().len() && real_props()[w] == k;
    if w < 18 {
        assert(real_props()[w] == sans_init_props()[w]);
    }
}

pub open spec fn parse_props() -> Seq<nat> {
    sans_init_props() + seq![21nat, 22, 23, 19, 24]
}

/// The kinds read from a document are the slots below 25 other than the built `init`.
pub proof fn lemma_parse_props_allowed(k: nat)
    requires
        parse_props().contains(k),
    ensures
        k < 25,
        k != KIND_REAL_INIT,
{
    lemma_sans_init_props();
    let w = choose|w: int| 0 <= w < parse_props().len() && parse_props()[w] == k;
    if w < 18 {
        assert(parse_props()[w] == sans_init_props()[w]);
    }
}

/// In each set of property kinds no two kinds are written with one label, so the labels
/// that `DynStruct::keys` lists tell the kinds apart (see `law_keys_list_stored_kinds`).
pub proof fn lemma_set_labels_distinct(j: nat, k: nat)
    ensures
        allowed::<RealAccountPropsSansInit>(j) && allowed::<RealAccountPropsSansInit>(k) && j != k
            ==> spec_kind_label(j) != spec_kind_label(k),
        allowed::<RealAccountProps>(j) && allowed::<RealAccountProps>(k) && j != k ==> spec_kind_label(j)
            != spec_kind_label(k),
        allowed::<ParseAccountProps>(j) && allowed::<ParseAccountProps>(k) && j != k ==> spec_kind_label(j)
            != spec_kind_label(k),
{
    lemma_sans_init_props();
    if allowed::<RealAccountPropsSansInit>(j) && allowed::<RealAccountPropsSansInit>(k) && j != k {
        lemma_kind_labels_distinct(j, k);
    }
    if allowed::<RealAccountProps>(j) && allowed::<RealAccountProps>(k) && j != k {
        lemma_real_props_allowed(j);
        lemma_real_props_allowed(k);
        lemma_kind_labels_distinct(j, k);
    }
    if allowed::<ParseAccountProps>(j) && allowed::<ParseAccountProps>(k) && j != k {
        lemma_parse_props_allowed(j);
        lemma_parse_props_allowed(k);
        lemma_kind_labels_distinct(j, k);
    }
}

impl PropSet for RealAccountPropsSansInit {
    type Item = LabelledProp;

    open spec fn spec_props() -> Seq<nat> {
        sans_init_props()
    }

    fn props() -> (v: Vec<usize>) {
        sans_init_props_vec()
    }

    proof fn lemma_props() {
    }

    fn has_prop(label: &str) -> (r: bool) {
        let props = Self::props();
        assert(kinds_view(props@) =~= Self::spec_props());
        find_kind_in(&props, label).is_some()
    }

    fn label(item: &LabelledProp) -> (r: &'static str) {
        kind_label(item.kind)
    }
}

impl PropSet for RealAccountProps {
    type Item = LabelledProp;

    open spec fn spec_props() -> Seq<nat> {
        real_props()
    }

    fn props() -> (v: Vec<usize>) {
        let mut v = sans_init_props_vec();
        v.push(KIND_REAL_INIT);
        v.push(KIND_INIT_IF_NEEDED);
        v.push(KIND_MUT);
        proof {
            assert forall|i: int| 0 <= i < v@.len() implies v@[i] as nat == #[trigger] real_props()[i] by {
                if i < 18 {
                    assert(real_props()[i] == sans_init_props()[i]);
                }
            }
        }
        v
    }

    proof fn lemma_props() {
        assert forall|i: int| 0 <= i < real_props().len() implies #[trigger] real_props()[i] < NUM_KINDS by {
            if i < 18 {
                assert(real_props()[i] == sans_init_props()[i]);
            }
        }
        assert forall|i: int, j: int| 0 <= i < j < real_props().len() implies real_props()[i] != real_props()[j] by {
            if j < 18 {
                assert(real_props()[i] == sans_init_props()[i]);
                assert(real_props()[j] == sans_init_props()[j]);
            } else if i < 18 {
                assert(real_props()[i] == sans_init_props()[i]);
            }
        }
    }

    fn has_prop(label: &str) -> (r: bool) {
        let props = Self::props();
        assert(kinds_view(props@) =~= Self::spec_props());
        find_kind_in(&props, label).is_some()
    }

    fn label(item: &LabelledProp) -> (r: &'static str) {
        kind_label(item.kind)
    }
}

/// What an account definition holds: plain properties, dependencies, properties for the
/// `init` and the other case, and properties chosen by an account argument.
pub enum ParseProp {
    Plain(LabelledProp),
    Depends(PropLabel, Vec<String>),
    Init(PropLabel, DynStruct<RealAccountPropsSansInit>),
    NoInit(PropLabel, DynStruct<RealAccountPropsSansInit>),
    Conditional(PropLabel, AccountConditionalProps),
}

/// `if <arg>: ...` with an optional `else: ...` at the same level.
pub struct AccountConditionalProps {
    pub arg: AccountArg,
    pub _if: DynStruct<RealAccountPropsSansInit>,
    pub _else: DynStruct<RealAccountPropsSansInit>,
}

pub type SansView = Seq<Option<LabelledPropV>>;

pub struct AccountConditionalPropsV {
    pub arg: Seq<char>,
    pub if_props: SansView,
    pub else_props: SansView,
}

impl View for AccountConditionalProps {
    type V = AccountConditionalPropsV;

    open spec fn view(&self) -> AccountConditionalPropsV {
        AccountConditionalPropsV { arg: self.arg@, if_props: self._if@, else_props: self._else@ }
    }
}

impl AccountConditionalProps {
    pub open spec fn wf(&self) -> bool {
        self._if.wf() && self._else.wf()
    }
}

pub enum ParsePropV {
    Plain(LabelledPropV),
    Depends(PropLabelV, Seq<Seq<char>>),
    Init(PropLabelV, SansView),
    NoInit(PropLabelV, SansView),
    Conditional(PropLabelV, AccountConditionalPropsV),
}

impl View for ParseProp {
    type V = ParsePropV;

    open spec fn view(&self) -> ParsePropV {
        match self {
            ParseProp::Plain(p) => ParsePropV::Plain(p@),
            ParseProp::Depends(l, v) => ParsePropV::Depends(l@, strings_view(v@)),
            ParseProp::Init(l, d) => ParsePropV::Init(l@, d@),
            ParseProp::NoInit(l, d) => ParsePropV::NoInit(l@, d@),
            ParseProp::Conditional(l, c) => ParsePropV::Conditional(l@, c@),
        }
    }
}

impl ParseProp {
    /// The nested property sets are well formed.
    pub open spec fn wf(&self) -> bool {
        match self {
            ParseProp::Init(_, d) => d.wf(),
            ParseProp::NoInit(_, d) => d.wf(),
            ParseProp::Conditional(_, c) => c.wf(),
            _ => true,
        }
    }
}

impl PropItem for ParseProp {
    open spec fn spec_kind(&self) -> nat {
        match self {
            ParseProp::Plain(p) => p.kind as nat,
            ParseProp::Depends(..) => KIND_DEPENDS as nat,
            ParseProp::Init(..) => KIND_INIT as nat,
            ParseProp::NoInit(..) => KIND_NO_INIT as nat,
            ParseProp::Conditional(..) => KIND_CONDITIONAL as nat,
        }
    }

    open spec fn spec_view_kind(v: ParsePropV) -> nat {
        match v {
            ParsePropV::Plain(p) => p.kind,
            ParsePropV::Depends(..) => KIND_DEPENDS as nat,
            ParsePropV::Init(..) => KIND_INIT as nat,
            ParsePropV::NoInit(..) => KIND_NO_INIT as nat,
            ParsePropV::Conditional(..) => KIND_CONDITIONAL as nat,
        }
    }

    fn kind(&self) -> (k: usize) {
        match self {
            ParseProp::Plain(p) => p.kind,
            ParseProp::Depends(..) => KIND_DEPENDS,
            ParseProp::Init(..) => KIND_INIT,
            ParseProp::NoInit(..) => KIND_NO_INIT,
            ParseProp::Conditional(..) => KIND_CONDITIONAL,
        }
    }

    proof fn lemma_kind(&self) {
    }

    open spec fn item_wf(&self) -> bool {
        self.wf()
    }

    fn dup(&self) -> (r: Self) {
        match self {
            ParseProp::Plain(p) => ParseProp::Plain(p.dup()),
            ParseProp::Depends(l, v) => ParseProp::Depends(l.dup(), dup_strings(v)),
            ParseProp::Init(l, d) => ParseProp::Init(l.dup(), d.dup()),
            ParseProp::NoInit(l, d) => ParseProp::NoInit(l.dup(), d.dup()),
            ParseProp::Conditional(l, c) => ParseProp::Conditional(
                l.dup(),
                AccountConditionalProps { arg: c.arg.dup(), _if: c._if.dup(), _else: c._else.dup() },
            ),
        }
    }
}

impl PropSet for ParseAccountProps {
    type Item = ParseProp;

    open spec fn spec_props() -> Seq<nat> {
        parse_props()
    }

    fn props() -> (v: Vec<usize>) {
        let mut v = sans_init_props_vec();
        v.push(KIND_DEPENDS);
        v.push(KIND_INIT);
        v.push(KIND_NO_INIT);
        v.push(KIND_INIT_IF_NEEDED);
        v.push(KIND_CONDITIONAL);
        proof {
            assert forall|i: int| 0 <= i < v@.len() implies v@[i] as nat == #[trigger] parse_props()[i] by {
                if i < 18 {
                    assert(parse_props()[i] == sans_init_props()[i]);
                }
            }
        }
        v
    }

    proof fn lemma_props() {
        assert forall|i: int| 0 <= i < parse_props().len() implies #[trigger] parse_props()[i] < NUM_KINDS by {
            if i < 18 {
                assert(parse_props()[i] == sans_init_props()[i]);
            }
        }
        assert forall|i: int, j: int| 0 <= i < j < parse_props().len() implies parse_props()[i] != parse_props()[j] by {
            if j < 18 {
                assert(parse_props()[i] == sans_init_props()[i]);
                assert(parse_props()[j] == sans_init_props()[j]);
            } else if i < 18 {
                assert(parse_props()[i] == sans_init_props()[i]);
            }
        }
    }

    fn has_prop(label: &str) -> (r: bool) {
        let props = Self::props();
        assert(kinds_view(props@) =~= Self::spec_props());
        find_kind_in(&props, label).is_some()
    }

    fn label(item: &ParseProp) -> (r: &'static str) {
        kind_label(item.kind())
    }
}


/// What went wrong while reading or building a document.
#[derive(Debug)]
pub enum DslError {
    /// A name was added twice to a keyed list.
    DuplicateKey(String),
    /// A context needs an account that no definition provides.
    UndefinedAccount(String),
    /// The `#[account(..)]` attribute of the named field is not a list of words.
    BadAccountAttr(String),
    /// An indentation level deeper than 16 was needed.
    IndentTooDeep,
    /// An identifier was expected.
    ExpectedIdent,
    /// The start of a line was expected.
    ExpectedIndent,
    /// A line is indented to the second level where the first was expected.
    WrongIndent(usize, usize),
    /// A line marker whose level is not a number.
    BadIndentNumber,
    /// A `:` was expected.
    ExpectedColon,
    /// A `[..]` group was expected.
    ExpectedBracket,
    /// A `(..)` group was expected.
    ExpectedParen,
    /// A `,` was expected.
    ExpectedComma,
    /// A `-` list item was expected.
    ExpectedDash,
    /// The label is not a property that can stand here.
    InvalidProperty(String),
    /// A Rust expression was expected.
    ExpectedExpr,
    /// A type path was expected.
    ExpectedType,
    /// `true` or `false` was expected.
    ExpectedBool,
    /// A string literal was expected.
    ExpectedString,
    /// A function argument was expected.
    ExpectedFnArg,
    /// An account is defined twice.
    DuplicateAccount(String),
    /// A line is indented by an odd number of spaces (the text before its first token).
    OddIndent(String),
    /// The text is not a module with its items written inside it.
    NotAModule,
    /// A field of the named context struct has no name.
    UnnamedField(String),
    /// Two fields of a context struct share a name.
    DuplicateField,
    /// An account of the named context struct has no type.
    UntypedAccount(String),
}

pub enum DslErrorV {
    DuplicateKey(Seq<char>),
    UndefinedAccount(Seq<char>),
    BadAccountAttr(Seq<char>),
    IndentTooDeep,
    ExpectedIdent,
    ExpectedIndent,
    WrongIndent(nat, nat),
    BadIndentNumber,
    ExpectedColon,
    ExpectedBracket,
    ExpectedParen,
    ExpectedComma,
    ExpectedDash,
    InvalidProperty(Seq<char>),
    ExpectedExpr,
    ExpectedType,
    ExpectedBool,
    ExpectedString,
    ExpectedFnArg,
    DuplicateAccount(Seq<char>),
    OddIndent(Seq<char>),
    NotAModule,
    UnnamedField(Seq<char>),
    DuplicateField,
    UntypedAccount(Seq<char>),
}

impl View for DslError {
    type V = DslErrorV;

    open spec fn view(&self) -> DslErrorV {
        match self {
            DslError::DuplicateKey(s) => DslErrorV::DuplicateKey(s@),
            DslError::UndefinedAccount(s) => DslErrorV::UndefinedAccount(s@),
            DslError::BadAccountAttr(s) => DslErrorV::BadAccountAttr(s@),
            DslError::IndentTooDeep => DslErrorV::IndentTooDeep,
            DslError::ExpectedIdent => DslErrorV::ExpectedIdent,
            DslError::ExpectedIndent => DslErrorV::ExpectedIndent,
            DslError::WrongIndent(a, b) => DslErrorV::WrongIndent(*a as nat, *b as nat),
            DslError::BadIndentNumber => DslErrorV::BadIndentNumber,
            DslError::ExpectedColon => DslErrorV::ExpectedColon,
            DslError::ExpectedBracket => DslErrorV::ExpectedBracket,
            DslError::ExpectedParen => DslErrorV::ExpectedParen,
            DslError::ExpectedComma => DslErrorV::ExpectedComma,
            DslError::ExpectedDash => DslErrorV::ExpectedDash,
            DslError::InvalidProperty(s) => DslErrorV::InvalidProperty(s@),
            DslError::ExpectedExpr => DslErrorV::ExpectedExpr,
            DslError::ExpectedType => DslErrorV::ExpectedType,
            DslError::ExpectedBool => DslErrorV::ExpectedBool,
            DslError::ExpectedString => DslErrorV::ExpectedString,
            DslError::ExpectedFnArg => DslErrorV::ExpectedFnArg,
            DslError::DuplicateAccount(s) => DslErrorV::DuplicateAccount(s@),
            DslError::OddIndent(s) => DslErrorV::OddIndent(s@),
            DslError::NotAModule => DslErrorV::NotAModule,
            DslError::UnnamedField(s) => DslErrorV::UnnamedField(s@),
            DslError::DuplicateField => DslErrorV::DuplicateField,
            DslError::UntypedAccount(s) => DslErrorV::UntypedAccount(s@),
        }
    }
}

/// A list of named entries; names are unique when the list is filled by `insert`.
pub struct KeyedVec<T>(pub Vec<(String, T)>);

impl<T: View> View for KeyedVec<T> {
    type V = Seq<(Seq<char>, T::V)>;

    open spec fn view(&self) -> Seq<(Seq<char>, T::V)> {
        self.0@.map_values(|e: (String, T)| (e.0@, e.1@))
    }
}

/// The first position at or after `i` whose name is `id`.
pub open spec fn key_index_from<V>(v: Seq<(Seq<char>, V)>, id: Seq<char>, i: nat) -> Option<nat>
    decreases v.len() - i,
{
    if i >= v.len() {
        None
    } else if v[i as int].0 == id {
        Some(i)
    } else {
        key_index_from(v, id, i + 1)
    }
}

/// The first position whose name is `id`.
pub open spec fn key_index<V>(v: Seq<(Seq<char>, V)>, id: Seq<char>) -> Option<nat> {
    key_index_from(v, id, 0)
}

/// The names of a keyed list.
pub open spec fn keys_of<V>(v: Seq<(Seq<char>, V)>) -> Seq<Seq<char>> {
    v.map_values(|e: (Seq<char>, V)| e.0)
}

/// No name occurs twice.
pub open spec fn keys_distinct<V>(v: Seq<(Seq<char>, V)>) -> bool {
    forall|i: int, j: int| 0 <= i < j < v.len() ==> v[i].0 != v[j].0
}

/// The entry named `id`, if any.
pub open spec fn lookup<V>(v: Seq<(Seq<char>, V)>, id: Seq<char>) -> Option<V> {
    match key_index(v, id) {
        Some(i) => Some(v[i as int].1),
        None => None,
    }
}

pub proof fn lemma_key_index_from<V>(v: Seq<(Seq<char>, V)>, id: Seq<char>, i: nat)
    ensures
        match key_index_from(v, id, i) {
            Some(j) => i <= j < v.len() && v[j as int].0 == id && forall|m: int|
                i <= m < j ==> v[m].0 != id,
            None => forall|m: int| i <= m < v.len() ==> v[m].0 != id,
        },
    decreases v.len() - i,
{
    if i < v.len() && v[i as int].0 != id {
        lemma_key_index_from(v, id, i + 1);
    }
}

/// `key_index` names the first entry with the name, and there is one iff the name occurs.
pub proof fn lemma_key_index<V>(v: Seq<(Seq<char>, V)>, id: Seq<char>)
    ensures
        match key_index(v, id) {
            Some(j) => j < v.len() && v[j as int].0 == id && forall|m: int| 0 <= m < j ==> v[m].0 != id,
            None => forall|m: int| 0 <= m < v.len() ==> v[m].0 != id,
        },
{
    lemma_key_index_from(v, id, 0);
}

impl<T: View> KeyedVec<T> {
    pub fn new() -> (r: Self)
        ensures
            r@ == Seq::<(Seq<char>, T::V)>::empty(),
    {
        let r = KeyedVec(Vec::new());
        assert(r@ =~= Seq::<(Seq<char>, T::V)>::empty());
        r
    }

    /// The position of the first entry named `id`.
    pub fn position(&self, id: &str) -> (r: Option<usize>)
        ensures
            match r {
                Some(i) => key_index(self@, id@) == Some(i as nat),
                None => key_index(self@, id@) is None,
            },
    {
        let mut i = self.0.len();
        let mut found: Option<usize> = None;
        while i > 0
            invariant
                i <= self@.len(),
                match found {
                    Some(j) => key_index_from(self@, id@, i as nat) == Some(j as nat),
                    None => key_index_from(self@, id@, i as nat) is None,
                },
            decreases i,
        {
            i = i - 1;
            if str_eq(self.0[i].0.as_str(), id) {
                found = Some(i);
            }
        }
        found
    }

    /// Whether some entry is named `id`.
    pub fn has(&self, id: &str) -> (r: bool)
        ensures
            r == (key_index(self@, id@) is Some),
            r == keys_of(self@).contains(id@),
    {
        proof {
            lemma_key_index(self@, id@);
            if let Some(j) = key_index(self@, id@) {
                assert(keys_of(self@)[j as int] == id@);
            }
        }
        self.position(id).is_some()
    }

    /// The first entry named `id`.
    pub fn get(&self, id: &str) -> (r: Option<&T>)
        ensures
            opt_view(r) == lookup(self@, id@),
    {
        proof {
            lemma_key_index(self@, id@);
        }
        match self.position(id) {
            Some(i) => Some(&self.0[i].1),
            None => None,
        }
    }

    /// Adds an entry; refused when the name is already taken.
    pub fn insert(&mut self, id: String, val: T) -> (r: Result<(), DslError>)
        ensures
            match r {
                Ok(()) => !keys_of(old(self)@).contains(id@) && final(self)@ == old(self)@.push((id@, val@)),
                Err(e) => keys_of(old(self)@).contains(id@) && final(self)@ == old(self)@ && e
                    == DslError::DuplicateKey(id),
            },
    {
        if self.has(id.as_str()) {
            Err(DslError::DuplicateKey(id))
        } else {
            let ghost pre = self@;
            let ghost entry = (id@, val@);
            self.0.push((id, val));
            assert(self@ =~= pre.push(entry));
            Ok(())
        }
    }

    /// The entries in order.
    pub fn iter(&self) -> (r: &[(String, T)])
        ensures
            r@ == self.0@,
    {
        self.0.as_slice()
    }
}

/// One line of a context: instruction arguments, or an account with its arguments.
pub enum ContextProp {
    Instruction { args: Vec<Vec<Tok>> },
    Account { name: String, args: Vec<AccountArg> },
}

pub enum ContextPropV {
    Instruction { args: Seq<Seq<TokV>> },
    Account { name: Seq<char>, args: Seq<Seq<char>> },
}

impl View for ContextProp {
    type V = ContextPropV;

    open spec fn view(&self) -> ContextPropV {
        match self {
            ContextProp::Instruction { args } => ContextPropV::Instruction { args: tok_lists_view(args@) },
            ContextProp::Account { name, args } => ContextPropV::Account { name: name@, args: args_view(args@) },
        }
    }
}

pub open spec fn ctx_props_view(v: Seq<ContextProp>) -> Seq<ContextPropV> {
    v.map_values(|p: ContextProp| p@)
}

/// The contexts of a document, by name.
pub struct YamlContexts(pub KeyedVec<Vec<ContextProp>>);

/// The account definitions of a document, by name.
pub type YamlAccounts = KeyedVec<DynStruct<ParseAccountProps>>;

/// A parsed document: its contexts and its account definitions.
pub struct YamlDoc(pub YamlContexts, pub YamlAccounts);

/// Every account definition of the list is well formed.
pub open spec fn defs_wf(defs: Seq<(String, DynStruct<ParseAccountProps>)>) -> bool {
    forall|i: int| 0 <= i < defs.len() ==> (#[trigger] defs[i]).1.wf()
}

/// A built account: its final properties.
pub struct BuiltAccount(pub DynStruct<RealAccountProps>);

pub type RealView = Seq<Option<LabelledPropV>>;

impl View for BuiltAccount {
    type V = RealView;

    open spec fn view(&self) -> RealView {
        self.0@
    }
}

/// Whether a value is the single identifier `word`.
pub open spec fn is_ident_value(v: PropValueV, word: Seq<char>) -> bool {
    v == PropValueV::Expr(seq![TokV::Ident(word)])
}

/// Whether a value is the single identifier `word`.
pub fn value_is_ident(v: &PropValue, word: &str) -> (r: bool)
    ensures
        r == is_ident_value(v@, word@),
{
    match v {
        PropValue::Expr(t) => {
            if t.len() == 1 {
                let r = t[0].is_ident(word);
                proof {
                    if r {
                        assert(toks_view(t@) =~= seq![TokV::Ident(word@)]);
                    } else {
                        assert(toks_view(t@)[0] == t@[0]@);
                    }
                }
                r
            } else {
                assert(toks_view(t@).len() != 1);
                false
            }
        },
        _ => false,
    }
}

/// The slot `k` holds a property whose value is the identifier `word`.
pub open spec fn slot_is_ident(v: RealView, k: int, word: Seq<char>) -> bool {
    v[k] matches Some(p) && is_ident_value(p.value, word)
}

/// The slot `k` holds a property whose value is the literal `true`.
pub open spec fn slot_flag(v: RealView, k: int) -> bool {
    v[k] matches Some(p) && flag_of(p.value)
}

/// The account uses the 2022 token program for its token, its associated token or its mint.
pub open spec fn spec_is_token_2022(v: RealView) -> bool {
    ||| slot_is_ident(v, KIND_ASSOCIATED_TOKEN_PROGRAM as int, "token_program_2022"@)
    ||| slot_is_ident(v, KIND_TOKEN_PROGRAM as int, "token_program_2022"@)
    ||| slot_is_ident(v, KIND_MINT_TOKEN_PROGRAM as int, "token_program_2022"@)
}

/// The account is only read: it is not `mut`, not `init`, and not `init_if_needed: true`.
pub open spec fn spec_is_ro(v: RealView) -> bool {
    &&& v[KIND_MUT as int] is None
    &&& !slot_flag(v, KIND_INIT_IF_NEEDED as int)
    &&& v[KIND_REAL_INIT as int] is None
}

/// Whether the property in the slot of `P` is the identifier `word`.
fn prop_is_ident<P: PropOf<RealAccountProps>>(d: &DynStruct<RealAccountProps>, word: &str) -> (r: bool)
    requires
        d.wf(),
    ensures
        r == slot_is_ident(d@, P::spec_kind() as int, word@),
{
    match d.get::<P>() {
        Some(p) => value_is_ident(&p.value, word),
        None => false,
    }
}

/// Whether the property in the slot of `P` is the literal `true`.
pub fn prop_flag<P: PropOf<RealAccountProps>>(d: &DynStruct<RealAccountProps>) -> (r: bool)
    requires
        d.wf(),
    ensures
        r == slot_flag(d@, P::spec_kind() as int),
{
    match d.get::<P>() {
        Some(p) => match &p.value {
            PropValue::Flag(b) => *b,
            _ => false,
        },
        None => false,
    }
}

impl BuiltAccount {
    pub open spec fn wf(&self) -> bool {
        self.0.wf()
    }

    pub fn is_token_2022(&self) -> (r: bool)
        requires
            self.wf(),
        ensures
            r == spec_is_token_2022(self@),
    {
        prop_is_ident::<AssociatedTokenProgram>(&self.0, "token_program_2022")
            || prop_is_ident::<TokenProgram>(&self.0, "token_program_2022")
            || prop_is_ident::<MintTokenProgram>(&self.0, "token_program_2022")
    }

    pub fn is_ro(&self) -> (r: bool)
        requires
            self.wf(),
        ensures
            r == spec_is_ro(self@),
    {
        !self.0.has::<Mut>() && !prop_flag::<InitIfNeeded>(&self.0) && !self.0.has::<RealInit>()
    }
}

/// A built context: its accounts by name, and its instruction arguments if it has any.
pub struct BuiltContext {
    pub accounts: KeyedVec<BuiltAccount>,
    pub instruction: Option<Vec<Vec<Tok>>>,
}

pub struct BuiltContextV {
    pub accounts: Seq<(Seq<char>, RealView)>,
    pub instruction: Option<Seq<Seq<TokV>>>,
}

impl View for BuiltContext {
    type V = BuiltContextV;

    open spec fn view(&self) -> BuiltContextV {
        BuiltContextV {
            accounts: self.accounts@,
            instruction: match self.instruction {
                Some(a) => Some(tok_lists_view(a@)),
                None => None,
            },
        }
    }
}

impl BuiltContext {
    /// Every account is well formed.
    pub open spec fn wf(&self) -> bool {
        forall|j: int| 0 <= j < self.accounts.0@.len() ==> (#[trigger] self.accounts.0@[j]).1.wf()
    }
}

/// The built contexts of a document, by name.
pub struct BuiltContexts(pub KeyedVec<BuiltContext>);


} // verus!
