use anchor_context_dsl::propsets::{DynStruct, KIND_ACCOUNT_TYPE, KIND_BOXED, KIND_MUT, KIND_SPACE};
use anchor_context_dsl::token::Tok;
use anchor_context_dsl::types::{
    AccountType, Boxed, DslError, KeyedVec, LabelledProp, Mut, PropLabel, PropValue, RealAccountProps, Space,
};

fn prop(label: &str, kind: usize, value: PropValue) -> LabelledProp {
    LabelledProp { label: PropLabel::from_str(label), kind, value }
}

fn word(w: &str) -> PropValue {
    PropValue::Expr(vec![Tok::Ident(w.to_string())])
}

fn value_word(p: &LabelledProp) -> String {
    match &p.value {
        PropValue::Expr(t) => match &t[0] {
            Tok::Ident(s) => s.clone(),
            _ => String::new(),
        },
        _ => String::new(),
    }
}

#[test]
fn dynstruct_insert_then_get() {
    let mut d = DynStruct::<RealAccountProps>::new();
    assert!(!d.has::<AccountType>());
    let old = d.insert::<AccountType>(prop("type", KIND_ACCOUNT_TYPE, word("Mint")));
    assert!(old.is_none());
    assert!(d.has::<AccountType>());
    assert_eq!(value_word(d.get::<AccountType>().unwrap()), "Mint");
    let old = d.insert::<AccountType>(prop("type", KIND_ACCOUNT_TYPE, word("Cell")));
    assert_eq!(value_word(&old.unwrap()), "Mint");
    assert_eq!(value_word(d.get::<AccountType>().unwrap()), "Cell");
}

#[test]
fn dynstruct_remove_takes_out() {
    let mut d = DynStruct::<RealAccountProps>::new();
    d.insert::<Mut>(prop("mut", KIND_MUT, PropValue::Unit));
    d.insert::<Boxed>(prop("boxed", KIND_BOXED, PropValue::Flag(true)));
    let m = d.remove::<Mut>();
    assert!(m.is_some());
    assert!(!d.has::<Mut>());
    assert!(d.has::<Boxed>());
    assert!(d.remove::<Mut>().is_none());
}

#[test]
fn dynstruct_get_mut_writes_through() {
    let mut d = DynStruct::<RealAccountProps>::new();
    d.insert::<Space>(prop("space", KIND_SPACE, word("a")));
    if let Some(p) = d.get_mut::<Space>() {
        p.value = word("b");
    }
    assert_eq!(value_word(d.get::<Space>().unwrap()), "b");
    assert!(d.get_mut::<Mut>().is_none());
}

#[test]
fn dynstruct_update_overlays() {
    let mut a = DynStruct::<RealAccountProps>::new();
    a.insert::<AccountType>(prop("type", KIND_ACCOUNT_TYPE, word("Mint")));
    a.insert::<Space>(prop("space", KIND_SPACE, word("8")));
    let mut b = DynStruct::<RealAccountProps>::new();
    b.insert::<Space>(prop("space", KIND_SPACE, word("16")));
    b.insert::<Mut>(prop("mut", KIND_MUT, PropValue::Unit));
    a.update(b);
    assert_eq!(value_word(a.get::<AccountType>().unwrap()), "Mint");
    assert_eq!(value_word(a.get::<Space>().unwrap()), "16");
    assert!(a.has::<Mut>());
}

#[test]
fn dynstruct_keys_in_walking_order() {
    let mut d = DynStruct::<RealAccountProps>::new();
    d.insert::<Mut>(prop("mut", KIND_MUT, PropValue::Unit));
    d.insert::<AccountType>(prop("type", KIND_ACCOUNT_TYPE, word("Mint")));
    d.insert::<Boxed>(prop("boxed", KIND_BOXED, PropValue::Flag(false)));
    assert_eq!(d.keys(), vec!["boxed", "type", "mut"]);
    let items = d.iter();
    assert_eq!(items.len(), 3);
    assert_eq!(items[1].kind, KIND_ACCOUNT_TYPE);
}

#[test]
fn dynstruct_insert_dyn_by_kind() {
    let mut d = DynStruct::<RealAccountProps>::new();
    let old = d.insert_dyn(prop("space", KIND_SPACE, word("1")));
    assert!(old.is_none());
    assert!(d.get_dyn(KIND_SPACE).is_some());
    assert!(d.has::<Space>());
    let copy = d.dup();
    assert_eq!(value_word(copy.get::<Space>().unwrap()), "1");
}

#[test]
fn keyed_vec_refuses_a_taken_name() {
    let mut k = KeyedVec::<PropLabel>::new();
    assert!(k.insert("a".to_string(), PropLabel::from_str("x")).is_ok());
    assert!(k.insert("b".to_string(), PropLabel::from_str("y")).is_ok());
    match k.insert("a".to_string(), PropLabel::from_str("z")) {
        Err(DslError::DuplicateKey(n)) => assert_eq!(n, "a"),
        _ => panic!("expected a duplicate key"),
    }
    assert_eq!(k.iter().len(), 2);
    assert!(k.has("b"));
    assert!(!k.has("c"));
    assert_eq!(k.get("a").unwrap().label, "x");
    assert_eq!(k.position("b"), Some(1));
}

#[test]
fn prop_label_of_a_path() {
    let path = vec![
        Tok::Ident("token".to_string()),
        Tok::Punct(':', true),
        Tok::Punct(':', false),
        Tok::Ident("mint".to_string()),
    ];
    let l = PropLabel::from_path(path);
    assert_eq!(l.label, "token :: mint");
}

#[test]
fn layering_sets_does_not_depend_on_grouping() {
    let make = |space: Option<&str>, ty: Option<&str>, m: bool| {
        let mut d = DynStruct::<RealAccountProps>::new();
        if let Some(s) = space {
            d.insert::<Space>(prop("space", KIND_SPACE, word(s)));
        }
        if let Some(t) = ty {
            d.insert::<AccountType>(prop("type", KIND_ACCOUNT_TYPE, word(t)));
        }
        if m {
            d.insert::<Mut>(prop("mut", KIND_MUT, PropValue::Unit));
        }
        d
    };
    let mut left = make(Some("1"), Some("A"), false);
    left.update(make(Some("2"), None, true));
    left.update(make(None, Some("C"), false));
    let mut bc = make(Some("2"), None, true);
    bc.update(make(None, Some("C"), false));
    let mut right = make(Some("1"), Some("A"), false);
    right.update(bc);
    assert_eq!(left.keys(), right.keys());
    assert_eq!(value_word(left.get::<Space>().unwrap()), "2");
    assert_eq!(value_word(right.get::<Space>().unwrap()), "2");
    assert_eq!(value_word(left.get::<AccountType>().unwrap()), "C");
    assert_eq!(value_word(right.get::<AccountType>().unwrap()), "C");
    let mut same = make(Some("9"), None, false);
    same.update(DynStruct::<RealAccountProps>::new());
    assert_eq!(value_word(same.get::<Space>().unwrap()), "9");
    assert_eq!(same.keys(), vec!["space"]);
}

#[test]
fn removing_after_storing_forgets_the_kind() {
    let mut d = DynStruct::<RealAccountProps>::new();
    d.insert::<Space>(prop("space", KIND_SPACE, word("1")));
    d.insert::<Space>(prop("space", KIND_SPACE, word("2")));
    assert_eq!(value_word(&d.remove::<Space>().unwrap()), "2");
    assert!(d.keys().is_empty());
}
