//! Property sets: a `DynStruct` holds at most one property of each kind that its set allows.
//!
//! Every property kind has a number (its slot) and a label.  A set lists the kinds it
//! allows, in the order in which its properties are walked.

use std::marker::PhantomData;
use crate::text::str_eq;
use vstd::prelude::*;

verus! {

/// The number of property kinds; slots of a `DynStruct` are numbered below it.
pub const NUM_KINDS: usize = 25;

pub const KIND_BOXED: usize = 0;
pub const KIND_ZERO_COPY: usize = 1;
pub const KIND_SPACE: usize = 2;
pub const KIND_CHECK: usize = 3;
pub const KIND_CONSTRAINTS: usize = 4;
pub const KIND_ACCOUNT_TYPE: usize = 5;
pub const KIND_SEEDS: usize = 6;
pub const KIND_TOKEN_MINT: usize = 7;
pub const KIND_TOKEN_AUTHORITY: usize = 8;
pub const KIND_TOKEN_PROGRAM: usize = 9;
pub const KIND_ASSOCIATED_TOKEN_MINT: usize = 10;
pub const KIND_ASSOCIATED_TOKEN_AUTHORITY: usize = 11;
pub const KIND_ASSOCIATED_TOKEN_PROGRAM: usize = 12;
pub const KIND_MINT_AUTHORITY: usize = 13;
pub const KIND_MINT_DECIMALS: usize = 14;
pub const KIND_MINT_TOKEN_PROGRAM: usize = 15;
pub const KIND_TRANSFER_HOOK_AUTHORITY: usize = 16;
pub const KIND_TRANSFER_HOOK_PROGRAM_ID: usize = 17;
pub const KIND_REAL_INIT: usize = 18;
pub const KIND_INIT_IF_NEEDED: usize = 19;
pub const KIND_MUT: usize = 20;
pub const KIND_DEPENDS: usize = 21;
pub const KIND_INIT: usize = 22;
pub const KIND_NO_INIT: usize = 23;
pub const KIND_CONDITIONAL: usize = 24;

/// The label of each property kind, as it is written.
pub open spec fn spec_kind_label(k: nat) -> Seq<char> {
    if k == 0 {
        "boxed"@
    } else if k == 1 {
        "zero_copy"@
    } else if k == 2 {
        "space"@
    } else if k == 3 {
        "check"@
    } else if k == 4 {
        "constraints"@
    } else if k == 5 {
        "type"@
    } else if k == 6 {
        "seeds"@
    } else if k == 7 {
        "token :: mint"@
    } else if k == 8 {
        "token :: authority"@
    } else if k == 9 {
        "token :: token_program"@
    } else if k == 10 {
        "associated_token :: mint"@
    } else if k == 11 {
        "associated_token :: authority"@
    } else if k == 12 {
        "associated_token :: token_program"@
    } else if k == 13 {
        "mint :: authority"@
    } else if k == 14 {
        "mint :: decimals"@
    } else if k == 15 {
        "mint :: token_program"@
    } else if k == 16 {
        "extensions :: transfer_hook :: authority"@
    } else if k == 17 {
        "extensions :: transfer_hook :: program_id"@
    } else if k == 18 {
        "init"@
    } else if k == 19 {
        "init_if_needed"@
    } else if k == 20 {
        "mut"@
    } else if k == 21 {
        "depends"@
    } else if k == 22 {
        "init"@
    } else if k == 23 {
        "noinit"@
    } else if k == 24 {
        "if"@
    } else {
        ""@
    }
}

/// Two kinds are written with one label only when both are `init`: the one read from a
/// document and the one a built account holds.
pub proof fn lemma_kind_labels_distinct(j: nat, k: nat)
    requires
        j < NUM_KINDS,
        k < NUM_KINDS,
        j != k,
        !(j == KIND_REAL_INIT && k == KIND_INIT),
        !(j == KIND_INIT && k == KIND_REAL_INIT),
    ensures
        spec_kind_label(j) != spec_kind_label(k),
{
    reveal_strlit("boxed");
    reveal_strlit("zero_copy");
    reveal_strlit("space");
    reveal_strlit("check");
    reveal_strlit("constraints");
    reveal_strlit("type");
    reveal_strlit("seeds");
    reveal_strlit("token :: mint");
    reveal_strlit("token :: authority");
    reveal_strlit("token :: token_program");
    reveal_strlit("associated_token :: mint");
    reveal_strlit("associated_token :: authority");
    reveal_strlit("associated_token :: token_program");
    reveal_strlit("mint :: authority");
    reveal_strlit("mint :: decimals");
    reveal_strlit("mint :: token_program");
    reveal_strlit("extensions :: transfer_hook :: authority");
    reveal_strlit("extensions :: transfer_hook :: program_id");
    reveal_strlit("init");
    reveal_strlit("init_if_needed");
    reveal_strlit("mut");
    reveal_strlit("depends");
    reveal_strlit("noinit");
    reveal_strlit("if");
    if spec_kind_label(j) == spec_kind_label(k) {
        assert(spec_kind_label(j).len() == spec_kind_label(k).len());
        assert(spec_kind_label(j)[0] == spec_kind_label(k)[0]);
        assert(spec_kind_label(j)[spec_kind_label(j).len() - 1] == spec_kind_label(k)[spec_kind_label(k).len() - 1]);
    }
}

/// The label of a property kind.
pub fn kind_label(k: usize) -> (r: &'static str)
    ensures
        r@ == spec_kind_label(k as nat),
{
    if k == 0 {
        "boxed"
    } else if k == 1 {
        "zero_copy"
    } else if k == 2 {
        "space"
    } else if k == 3 {
        "check"
    } else if k == 4 {
        "constraints"
    } else if k == 5 {
        "type"
    } else if k == 6 {
        "seeds"
    } else if k == 7 {
        "token :: mint"
    } else if k == 8 {
        "token :: authority"
    } else if k == 9 {
        "token :: token_program"
    } else if k == 10 {
        "associated_token :: mint"
    } else if k == 11 {
        "associated_token :: authority"
    } else if k == 12 {
        "associated_token :: token_program"
    } else if k == 13 {
        "mint :: authority"
    } else if k == 14 {
        "mint :: decimals"
    } else if k == 15 {
        "mint :: token_program"
    } else if k == 16 {
        "extensions :: transfer_hook :: authority"
    } else if k == 17 {
        "extensions :: transfer_hook :: program_id"
    } else if k == 18 {
        "init"
    } else if k == 19 {
        "init_if_needed"
    } else if k == 20 {
        "mut"
    } else if k == 21 {
        "depends"
    } else if k == 22 {
        "init"
    } else if k == 23 {
        "noinit"
    } else if k == 24 {
        "if"
    } else {
        ""
    }
}


/// A value stored in a property set: it knows its own kind.
pub trait PropItem: View + Sized {
    spec fn spec_kind(&self) -> nat;

    /// The kind of this property, a function of its view.
    spec fn spec_view_kind(v: Self::V) -> nat;

    fn kind(&self) -> (k: usize)
        ensures
            k as nat == self.spec_kind(),
    ;

    proof fn lemma_kind(&self)
        ensures
            Self::spec_view_kind(self@) == self.spec_kind(),
    ;

    /// Whatever the item holds is itself well formed.
    spec fn item_wf(&self) -> bool;

    fn dup(&self) -> (r: Self)
        requires
            self.item_wf(),
        ensures
            r@ == self@,
            r.spec_kind() == self.spec_kind(),
            r.item_wf(),
    ;
}

/// A property kind: a name for one slot of a property set.
pub trait IsProp {
    spec fn spec_kind() -> nat;

    fn kind() -> (k: usize)
        ensures
            k as nat == Self::spec_kind(),
            k < NUM_KINDS,
    ;

    /// The label under which the property is written.
    fn label() -> (l: &'static str)
        ensures
            l@ == spec_kind_label(Self::spec_kind()),
    ;
}

/// A set of allowed property kinds, walked in a fixed order.
pub trait PropSet: Sized {
    type Item: PropItem;

    /// The kinds of the set in walking order; no kind occurs twice.
    spec fn spec_props() -> Seq<nat>;

    fn props() -> (v: Vec<usize>)
        ensures
            v@.len() == Self::spec_props().len(),
            forall|i: int| 0 <= i < v@.len() ==> v@[i] as nat == #[trigger] Self::spec_props()[i],
    ;

    proof fn lemma_props()
        ensures
            forall|i: int| 0 <= i < Self::spec_props().len() ==> #[trigger] Self::spec_props()[i] < NUM_KINDS,
            forall|i: int, j: int|
                0 <= i < j < Self::spec_props().len() ==> Self::spec_props()[i] != Self::spec_props()[j],
    ;

    /// Whether some kind of the set is written with this label.
    fn has_prop(label: &str) -> (r: bool)
        ensures
            r == (find_kind_from(Self::spec_props(), label@, 0) is Some),
    ;

    /// The label of a stored property.
    fn label(item: &Self::Item) -> (r: &'static str)
        ensures
            r@ == spec_kind_label(item.spec_kind()),
    ;
}

/// The first kind at or after position `i` of `props` that is written with `label`.
pub open spec fn find_kind_from(props: Seq<nat>, label: Seq<char>, i: nat) -> Option<nat>
    decreases props.len() - i,
{
    if i >= props.len() {
        None
    } else if spec_kind_label(props[i as int]) == label {
        Some(props[i as int])
    } else {
        find_kind_from(props, label, i + 1)
    }
}

/// The kinds of a list, as numbers.
pub open spec fn kinds_view(v: Seq<usize>) -> Seq<nat> {
    v.map_values(|k: usize| k as nat)
}

/// The first kind in `props` that is written with `label`.
pub fn find_kind_in(props: &Vec<usize>, label: &str) -> (r: Option<usize>)
    ensures
        match r {
            Some(k) => find_kind_from(kinds_view(props@), label@, 0) == Some(k as nat),
            None => find_kind_from(kinds_view(props@), label@, 0) is None,
        },
{
    let ghost ps = kinds_view(props@);
    let mut i = props.len();
    let mut found: Option<usize> = None;
    while i > 0
        invariant
            i <= props@.len(),
            ps == kinds_view(props@),
            match found {
                Some(k) => find_kind_from(ps, label@, i as nat) == Some(k as nat),
                None => find_kind_from(ps, label@, i as nat) is None,
            },
        decreases i,
    {
        i = i - 1;
        let k = props[i];
        assert(k as nat == ps[i as int]);
        if str_eq(kind_label(k), label) {
            found = Some(k);
        }
    }
    found
}

/// The first kind of the set (in walking order) that is written with `label`.
pub fn find_kind<S: PropSet>(label: &str) -> (r: Option<usize>)
    ensures
        match r {
            Some(k) => find_kind_from(S::spec_props(), label@, 0) == Some(k as nat),
            None => find_kind_from(S::spec_props(), label@, 0) is None,
        },
{
    let props = S::props();
    assert(kinds_view(props@) =~= S::spec_props());
    find_kind_in(&props, label)
}

/// A property kind that can be looked up in sets of kind `S`.
pub trait PropOf<S: PropSet>: IsProp {
}

/// At most one property per kind, each stored under its own kind.
#[verifier::reject_recursive_types(S)]
pub struct DynStruct<S: PropSet> {
    slots: Vec<Option<S::Item>>,
    _set: PhantomData<S>,
}

pub open spec fn opt_view<T: View>(o: Option<T>) -> Option<T::V> {
    match o {
        Some(x) => Some(x@),
        None => None,
    }
}

impl<S: PropSet> View for DynStruct<S> {
    type V = Seq<Option<<S::Item as View>::V>>;

    closed spec fn view(&self) -> Self::V {
        self.slots@.map_values(|o: Option<S::Item>| opt_view(o))
    }
}

/// Whether the kind is one that the set allows.
pub open spec fn allowed<S: PropSet>(kind: nat) -> bool {
    S::spec_props().contains(kind)
}

/// The abstract contents of a well-formed property set: one slot per kind, a stored
/// property sits in the slot of its own kind, and only kinds of the set are stored.
pub open spec fn wf_view<S: PropSet>(v: Seq<Option<<S::Item as View>::V>>) -> bool {
    &&& v.len() == NUM_KINDS
    &&& forall|k: int|
        0 <= k < NUM_KINDS && (#[trigger] v[k]) is Some ==> S::Item::spec_view_kind(v[k]->0) == k
            && allowed::<S>(k as nat)
}

/// The stored properties in walking order.
pub open spec fn walk<S: PropSet>(v: Seq<Option<<S::Item as View>::V>>) -> Seq<<S::Item as View>::V>
    decreases S::spec_props().len(),
{
    walk_from::<S>(v, 0)
}

pub open spec fn walk_from<S: PropSet>(v: Seq<Option<<S::Item as View>::V>>, i: nat) -> Seq<
    <S::Item as View>::V,
>
    decreases S::spec_props().len() - i,
{
    if i >= S::spec_props().len() {
        seq![]
    } else {
        let k = S::spec_props()[i as int] as int;
        let rest = walk_from::<S>(v, i + 1);
        match v[k] {
            Some(x) => seq![x].add(rest),
            None => rest,
        }
    }
}

/// `other` laid over `base`: where `other` holds a property, it wins.
pub open spec fn overlay<V>(base: Seq<Option<V>>, other: Seq<Option<V>>) -> Seq<Option<V>> {
    Seq::new(base.len(), |k: int| if other[k] is Some { other[k] } else { base[k] })
}

impl<S: PropSet> DynStruct<S> {
    /// Well-formedness: see `wf_view`.
    pub closed spec fn wf(&self) -> bool {
        &&& self.slots@.len() == NUM_KINDS
        &&& forall|k: int|
            0 <= k < NUM_KINDS && (#[trigger] self.slots@[k]) is Some ==> self.slots@[k]->0.spec_kind()
                == k && allowed::<S>(k as nat) && self.slots@[k]->0.item_wf()
    }

    pub proof fn lemma_wf(&self)
        requires
            self.wf(),
        ensures
            wf_view::<S>(self@),
    {
        assert forall|k: int| 0 <= k < NUM_KINDS && (#[trigger] self@[k]) is Some implies S::Item::spec_view_kind(
            self@[k]->0,
        ) == k && allowed::<S>(k as nat) by {
            self.slots@[k]->0.lemma_kind();
        }
    }

    /// An empty set.
    pub fn new() -> (r: Self)
        ensures
            r.wf(),
            r@ == Seq::new(NUM_KINDS as nat, |k: int| None::<<S::Item as View>::V>),
    {
        let mut slots: Vec<Option<S::Item>> = Vec::new();
        let mut i: usize = 0;
        while i < NUM_KINDS
            invariant
                i <= NUM_KINDS,
                slots@.len() == i,
                forall|k: int| 0 <= k < i ==> (#[trigger] slots@[k]) is None,
            decreases NUM_KINDS - i,
        {
            slots.push(None);
            i = i + 1;
        }
        let r = DynStruct { slots, _set: PhantomData };
        assert(r@ =~= Seq::new(NUM_KINDS as nat, |k: int| None::<<S::Item as View>::V>));
        r
    }

    /// A copy of the set.
    pub fn dup(&self) -> (r: Self)
        requires
            self.wf(),
        ensures
            r.wf(),
            r@ == self@,
    {
        let mut slots: Vec<Option<S::Item>> = Vec::new();
        let mut i: usize = 0;
        while i < NUM_KINDS
            invariant
                i <= NUM_KINDS,
                self.wf(),
                slots@.len() == i,
                forall|k: int|
                    0 <= k < i ==> opt_view(#[trigger] slots@[k]) == opt_view(self.slots@[k]) && (
                    slots@[k] is Some ==> slots@[k]->0.spec_kind() == self.slots@[k]->0.spec_kind()
                    && slots@[k]->0.item_wf()) && (
                    slots@[k] is Some <==> self.slots@[k] is Some),
            decreases NUM_KINDS - i,
        {
            match &self.slots[i] {
                Some(x) => slots.push(Some(x.dup())),
                None => slots.push(None),
            }
            i = i + 1;
        }
        let r = DynStruct { slots, _set: PhantomData };
        assert(r@ =~= self@);
        r
    }

    /// The property stored under kind number `k`, if any.
    pub fn get_dyn(&self, k: usize) -> (r: Option<&S::Item>)
        requires
            self.wf(),
            k < NUM_KINDS,
        ensures
            opt_view(r) == self@[k as int],
            r matches Some(x) ==> x.spec_kind() == k && allowed::<S>(k as nat) && x.item_wf(),
    {
        match &self.slots[k] {
            Some(x) => Some(x),
            None => None,
        }
    }

    /// Whether a property of kind `P` is present.
    pub fn has<P: PropOf<S>>(&self) -> (r: bool)
        requires
            self.wf(),
        ensures
            r == self@[P::spec_kind() as int] is Some,
    {
        let k = P::kind();
        self.slots[k].is_some()
    }

    /// The property of kind `P`, if present.
    pub fn get<P: PropOf<S>>(&self) -> (r: Option<&S::Item>)
        requires
            self.wf(),
        ensures
            opt_view(r) == self@[P::spec_kind() as int],
            r matches Some(x) ==> x.spec_kind() == P::spec_kind(),
    {
        let k = P::kind();
        match &self.slots[k] {
            Some(x) => Some(x),
            None => None,
        }
    }

    /// A mutable reference to the property of kind `P`, if present.  Whatever is written
    /// through it ends up in the slot of `P`.
    pub fn get_mut<P: PropOf<S>>(&mut self) -> (r: Option<&mut S::Item>)
        requires
            old(self).wf(),
        ensures
            match r {
                Some(x) => {
                    &&& old(self)@[P::spec_kind() as int] == Some(x@)
                    &&& x.spec_kind() == P::spec_kind()
                    &&& final(self)@ == old(self)@.update(P::spec_kind() as int, Some(final(x)@))
                    &&& (final(x).spec_kind() == P::spec_kind() && final(x).item_wf() ==> final(self).wf())
                },
                None => {
                    &&& old(self)@[P::spec_kind() as int] is None
                    &&& final(self)@ == old(self)@
                    &&& final(self).wf()
                },
            },
    {
        let k = P::kind();
        if self.slots[k].is_none() {
            return None;
        }
        match &mut self.slots[k] {
            Some(x) => Some(x),
            None => None,
        }
    }

    /// Stores `val` in the slot of `P` and hands back what was there.
    pub fn insert<P: PropOf<S>>(&mut self, val: S::Item) -> (r: Option<S::Item>)
        requires
            old(self).wf(),
            val.spec_kind() == P::spec_kind(),
            allowed::<S>(P::spec_kind()),
            val.item_wf(),
        ensures
            final(self).wf(),
            opt_view(r) == old(self)@[P::spec_kind() as int],
            final(self)@ == old(self)@.update(P::spec_kind() as int, Some(val@)),
    {
        self.insert_dyn(val)
    }

    /// Stores a property in the slot of its own kind and hands back what was there.
    pub fn insert_dyn(&mut self, prop: S::Item) -> (r: Option<S::Item>)
        requires
            old(self).wf(),
            allowed::<S>(prop.spec_kind()),
            prop.item_wf(),
        ensures
            final(self).wf(),
            opt_view(r) == old(self)@[prop.spec_kind() as int],
            final(self)@ == old(self)@.update(prop.spec_kind() as int, Some(prop@)),
    {
        proof {
            prop.lemma_kind();
            S::lemma_props();
        }
        let k = prop.kind();
        let ghost pv = prop@;
        let ghost pk = prop.spec_kind();
        let mut slot = Some(prop);
        std::mem::swap(&mut slot, &mut self.slots[k]);
        proof {
            assert(self@ =~= old(self)@.update(pk as int, Some(pv)));
        }
        slot
    }

    /// Takes the property of kind `P` out, if present.
    pub fn remove<P: PropOf<S>>(&mut self) -> (r: Option<S::Item>)
        requires
            old(self).wf(),
        ensures
            final(self).wf(),
            opt_view(r) == old(self)@[P::spec_kind() as int],
            r matches Some(x) ==> x.spec_kind() == P::spec_kind(),
            final(self)@ == old(self)@.update(P::spec_kind() as int, None),
    {
        let k = P::kind();
        let mut slot: Option<S::Item> = None;
        std::mem::swap(&mut slot, &mut self.slots[k]);
        proof {
            assert(self@ =~= old(self)@.update(k as int, None));
        }
        slot
    }

    /// The stored properties, in the walking order of the set.
    pub fn iter(&self) -> (r: Vec<&S::Item>)
        requires
            self.wf(),
        ensures
            r@.map_values(|x: &S::Item| x@) == walk::<S>(self@),
    {
        let props = S::props();
        let mut out: Vec<&S::Item> = Vec::new();
        let mut i = props.len();
        proof {
            S::lemma_props();
        }
        while i > 0
            invariant
                i <= props@.len(),
                props@.len() == S::spec_props().len(),
                forall|j: int| 0 <= j < props@.len() ==> props@[j] as nat == #[trigger] S::spec_props()[j],
                forall|j: int| 0 <= j < S::spec_props().len() ==> #[trigger] S::spec_props()[j] < NUM_KINDS,
                self.wf(),
                out@.map_values(|x: &S::Item| x@).reverse() == walk_from::<S>(self@, i as nat),
            decreases i,
        {
            i = i - 1;
            let k = props[i];
            assert(S::spec_props()[i as int] < NUM_KINDS);
            let ghost before = out@.map_values(|x: &S::Item| x@);
            match &self.slots[k] {
                Some(x) => {
                    out.push(x);
                    assert(out@.map_values(|x: &S::Item| x@) == before.push(x@));
                    assert(before.push(x@).reverse() =~= seq![x@].add(before.reverse()));
                },
                None => {},
            }
        }
        let ghost w = out@.map_values(|x: &S::Item| x@);
        let mut res: Vec<&S::Item> = Vec::new();
        let mut j = out.len();
        while j > 0
            invariant
                j <= out@.len(),
                w == out@.map_values(|x: &S::Item| x@),
                res@.map_values(|x: &S::Item| x@) == w.subrange(j as int, w.len() as int).reverse(),
            decreases j,
        {
            j = j - 1;
            res.push(out[j]);
            assert(w.subrange(j as int, w.len() as int).reverse() =~= w.subrange(
                j + 1,
                w.len() as int,
            ).reverse().push(w[j as int]));
        }
        assert(w.subrange(0, w.len() as int) == w);
        res
    }

    /// The labels of the stored properties, in walking order.
    pub fn keys(&self) -> (r: Vec<&'static str>)
        requires
            self.wf(),
        ensures
            r@.len() == walk::<S>(self@).len(),
            forall|i: int|
                0 <= i < r@.len() ==> (#[trigger] r@[i])@ == spec_kind_label(
                    S::Item::spec_view_kind(walk::<S>(self@)[i]),
                ),
    {
        let items = self.iter();
        let ghost w = walk::<S>(self@);
        let mut out: Vec<&'static str> = Vec::new();
        let mut i: usize = 0;
        proof {
            assert(items@.map_values(|x: &S::Item| x@).len() == items@.len());
        }
        while i < items.len()
            invariant
                i <= items@.len(),
                out@.len() == i,
                w == items@.map_values(|x: &S::Item| x@),
                forall|q: int| 0 <= q < i ==> (#[trigger] out@[q])@ == spec_kind_label(S::Item::spec_view_kind(w[q])),
            decreases items@.len() - i,
        {
            let item = items[i];
            proof {
                item.lemma_kind();
                assert(w[i as int] == item@);
            }
            out.push(S::label(item));
            i = i + 1;
        }
        out
    }

    /// Lays `other` over `self`: every property of `other` replaces the one of its kind.
    pub fn update(&mut self, other: DynStruct<S>)
        requires
            old(self).wf(),
            other.wf(),
        ensures
            final(self).wf(),
            final(self)@ == overlay(old(self)@, other@),
    {
        let ghost orig = other@;
        let ghost oslots = other.slots@;
        let mut other = other;
        let mut k: usize = 0;
        while k < NUM_KINDS
            invariant
                k <= NUM_KINDS,
                self.wf(),
                orig == oslots.map_values(|o: Option<S::Item>| opt_view(o)),
                oslots.len() == NUM_KINDS,
                old(self)@.len() == NUM_KINDS,
                orig.len() == NUM_KINDS,
                other.slots@.len() == NUM_KINDS,
                forall|j: int|
                    0 <= j < NUM_KINDS && (#[trigger] oslots[j]) is Some ==> oslots[j]->0.spec_kind() == j
                        && allowed::<S>(j as nat) && oslots[j]->0.item_wf(),
                forall|j: int| k <= j < NUM_KINDS ==> #[trigger] other.slots@[j] == oslots[j],
                forall|j: int| 0 <= j < k ==> #[trigger] self@[j] == overlay(old(self)@, orig)[j],
                forall|j: int| k <= j < NUM_KINDS ==> #[trigger] self@[j] == old(self)@[j],
            decreases NUM_KINDS - k,
        {
            let mut slot: Option<S::Item> = None;
            std::mem::swap(&mut slot, &mut other.slots[k]);
            assert(slot == oslots[k as int]);
            assert(orig[k as int] == opt_view(oslots[k as int]));
            let ghost before = self@;
            let ghost bslots = self.slots@;
            if slot.is_some() {
                std::mem::swap(&mut slot, &mut self.slots[k]);
                assert(self.slots@[k as int] == oslots[k as int]);
                assert(self@ =~= before.update(k as int, orig[k as int]));
                assert forall|j: int|
                    0 <= j < NUM_KINDS && (#[trigger] self.slots@[j]) is Some implies self.slots@[j]->0.spec_kind()
                        == j && allowed::<S>(j as nat) && self.slots@[j]->0.item_wf() by {
                    if j == k {
                        assert(oslots[j] is Some);
                    } else {
                        assert(self.slots@[j] == bslots[j]);
                        assert(bslots[j] is Some);
                    }
                }
            }
            k = k + 1;
        }
        assert(self@ =~= overlay(old(self)@, orig));
    }
}

} // verus!
