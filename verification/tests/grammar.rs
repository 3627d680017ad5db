use anchor_context_dsl::parse::check_indent;
use anchor_context_dsl::propsets::KIND_SEEDS;
use anchor_context_dsl::token::{Delim, Tok, tokens_text};
use anchor_context_dsl::types::{
    AccountType, Boxed, Constraints, ContextProp, Depends, DslError, Init, NoInit, ParseProp, PropValue, Seeds,
    TokenMint, YamlDoc,
};
use proc_macro2::{Delimiter, Spacing, TokenStream, TokenTree};

fn flatten(ts: TokenStream, out: &mut Vec<Tok>) {
    for tt in ts {
        match tt {
            TokenTree::Group(g) => {
                let d = match g.delimiter() {
                    Delimiter::Parenthesis => Delim::Paren,
                    Delimiter::Bracket => Delim::Bracket,
                    Delimiter::Brace => Delim::Brace,
                    Delimiter::None => Delim::Invisible,
                };
                out.push(Tok::Open(d));
                flatten(g.stream(), out);
                out.push(Tok::Close(d));
            }
            TokenTree::Ident(i) => out.push(Tok::Ident(i.to_string())),
            TokenTree::Punct(p) => out.push(Tok::Punct(p.as_char(), p.spacing() == Spacing::Joint)),
            TokenTree::Literal(l) => out.push(Tok::Literal(l.to_string())),
        }
    }
}

fn lex(src: &str) -> Vec<Tok> {
    let ts: TokenStream = src.parse().unwrap();
    let mut out = Vec::new();
    flatten(ts, &mut out);
    out
}

fn text(t: &[Tok]) -> String {
    tokens_text(t).into_iter().collect()
}

fn parse(src: &str) -> Result<YamlDoc, DslError> {
    YamlDoc::read(&lex(src))
}

fn err(src: &str) -> DslError {
    match parse(src) {
        Err(e) => e,
        Ok(_) => panic!("expected an error"),
    }
}

#[test]
fn parses_an_account_definition() {
    let doc = parse(
        "__indent_0 cell : __indent_1 type : Cell __indent_1 boxed : true \
         __indent_1 seeds : [b\"cell\", id.to_le_bytes().as_ref()]",
    )
    .unwrap();
    let YamlDoc(ctxs, accounts) = doc;
    assert_eq!(ctxs.0.iter().len(), 0);
    assert_eq!(accounts.iter().len(), 1);
    let def = accounts.get("cell").unwrap();
    match def.get::<AccountType>() {
        Some(ParseProp::Plain(p)) => match &p.value {
            PropValue::Expr(t) => assert_eq!(text(t), "Cell"),
            _ => panic!("type value"),
        },
        _ => panic!("type"),
    }
    match def.get::<Boxed>() {
        Some(ParseProp::Plain(p)) => assert!(matches!(p.value, PropValue::Flag(true))),
        _ => panic!("boxed"),
    }
    match def.get::<Seeds>() {
        Some(ParseProp::Plain(p)) => {
            assert_eq!(p.kind, KIND_SEEDS);
            match &p.value {
                PropValue::Exprs(es) => {
                    assert_eq!(es.len(), 2);
                    assert_eq!(text(&es[0]), "b\"cell\"");
                    assert_eq!(text(&es[1]), "id . to_le_bytes () . as_ref ()");
                }
                _ => panic!("seeds value"),
            }
        }
        _ => panic!("seeds"),
    }
}

#[test]
fn parses_paths_lists_and_nested_sets() {
    let doc = parse(
        "__indent_0 reserve : __indent_1 depends : [cell, mint] __indent_1 token::mint : mint \
         __indent_1 constraints : __indent_2 - a == b __indent_2 - c.is_some() \
         __indent_1 init : __indent_2 space : 8 __indent_1 noinit : __indent_2 type : Mint",
    )
    .unwrap();
    let def = doc.1.get("reserve").unwrap();
    match def.get::<Depends>() {
        Some(ParseProp::Depends(_, names)) => assert_eq!(names, &vec!["cell".to_string(), "mint".to_string()]),
        _ => panic!("depends"),
    }
    match def.get::<TokenMint>() {
        Some(ParseProp::Plain(p)) => {
            assert_eq!(p.label.label, "token :: mint");
            match &p.value {
                PropValue::Expr(t) => assert_eq!(text(t), "mint"),
                _ => panic!("mint value"),
            }
        }
        _ => panic!("token::mint"),
    }
    match def.get::<Constraints>() {
        Some(ParseProp::Plain(p)) => match &p.value {
            PropValue::Exprs(es) => {
                assert_eq!(es.len(), 2);
                assert_eq!(text(&es[0]), "a == b");
                assert_eq!(text(&es[1]), "c . is_some ()");
            }
            _ => panic!("constraints value"),
        },
        _ => panic!("constraints"),
    }
    assert!(matches!(def.get::<Init>(), Some(ParseProp::Init(..))));
    assert!(matches!(def.get::<NoInit>(), Some(ParseProp::NoInit(..))));
}

#[test]
fn parses_a_conditional() {
    let doc = parse(
        "__indent_0 cell : __indent_1 if init : __indent_2 space : 10 __indent_1 else : __indent_2 space : 20",
    )
    .unwrap();
    let def = doc.1.get("cell").unwrap();
    let items = def.iter();
    assert_eq!(items.len(), 1);
    match items[0] {
        ParseProp::Conditional(l, c) => {
            assert_eq!(l.label, "if");
            assert_eq!(c.arg.0, "init");
            assert_eq!(c._if.iter().len(), 1);
            assert_eq!(c._else.iter().len(), 1);
        }
        _ => panic!("conditional"),
    }
}

#[test]
fn parses_a_context() {
    let doc = parse(
        "__indent_0 context Swap : __indent_1 instruction : (id: u32, data: Vec<u8>) \
         __indent_1 cell : [mut, init] __indent_1 signer",
    )
    .unwrap();
    let ctx = doc.0.0.get("Swap").unwrap();
    assert_eq!(ctx.len(), 3);
    match &ctx[0] {
        ContextProp::Instruction { args } => {
            assert_eq!(args.len(), 2);
            assert_eq!(text(&args[0]), "id : u32");
            assert_eq!(text(&args[1]), "data : Vec < u8 >");
        }
        _ => panic!("instruction"),
    }
    match &ctx[1] {
        ContextProp::Account { name, args } => {
            assert_eq!(name, "cell");
            assert_eq!(args.len(), 2);
            assert_eq!(args[0].0, "mut");
            assert_eq!(args[1].0, "init");
        }
        _ => panic!("cell"),
    }
    match &ctx[2] {
        ContextProp::Account { name, args } => {
            assert_eq!(name, "signer");
            assert!(args.is_empty());
        }
        _ => panic!("signer"),
    }
}

#[test]
fn generic_argument_commas_stay_in_one_item() {
    let doc = parse("__indent_0 context C : __indent_1 instruction : (m: HashMap<u8, u16>, n: u8)").unwrap();
    match &doc.0.0.get("C").unwrap()[0] {
        ContextProp::Instruction { args } => {
            assert_eq!(args.len(), 2);
            assert_eq!(text(&args[0]), "m : HashMap < u8 , u16 >");
        }
        _ => panic!("instruction"),
    }
}

#[test]
fn a_later_property_replaces_an_earlier_one() {
    let doc = parse("__indent_0 a : __indent_1 type : A __indent_1 type : B").unwrap();
    match doc.1.get("a").unwrap().get::<AccountType>() {
        Some(ParseProp::Plain(p)) => match &p.value {
            PropValue::Expr(t) => assert_eq!(text(t), "B"),
            _ => panic!(),
        },
        _ => panic!(),
    }
}

#[test]
fn empty_document() {
    let doc = parse("").unwrap();
    assert_eq!(doc.1.iter().len(), 0);
}

#[test]
fn error_wrong_indent() {
    assert!(matches!(err("__indent_1 a : __indent_1 type : A"), DslError::WrongIndent(0, 1)));
}

#[test]
fn error_expected_indent() {
    assert!(matches!(err("a : __indent_1 type : A"), DslError::ExpectedIndent));
}

#[test]
fn error_expected_ident() {
    assert!(matches!(err("__indent_0 : __indent_1 type : A"), DslError::ExpectedIdent));
    assert!(matches!(err("__indent_0 type : __indent_1 type : A"), DslError::ExpectedIdent));
}

#[test]
fn error_bad_indent_number() {
    assert!(matches!(err("__indent_x a : __indent_1 type : A"), DslError::BadIndentNumber));
}

#[test]
fn error_expected_colon() {
    assert!(matches!(err("__indent_0 a __indent_1 type : A"), DslError::ExpectedColon));
}

#[test]
fn error_invalid_property() {
    match err("__indent_0 a : __indent_1 colour : red") {
        DslError::InvalidProperty(l) => assert_eq!(l, "colour"),
        _ => panic!("expected an invalid property"),
    }
    match err("__indent_0 a : __indent_1 init : __indent_2 mut : x") {
        DslError::InvalidProperty(l) => assert_eq!(l, "mut"),
        _ => panic!("expected an invalid property"),
    }
}

#[test]
fn error_expected_bracket_and_paren() {
    assert!(matches!(err("__indent_0 a : __indent_1 seeds : b\"x\""), DslError::ExpectedBracket));
    assert!(matches!(err("__indent_0 context C : __indent_1 instruction : x"), DslError::ExpectedParen));
}

#[test]
fn error_expected_comma() {
    assert!(matches!(err("__indent_0 context C : __indent_1 a : [mut init]"), DslError::ExpectedComma));
}

#[test]
fn error_expected_dash() {
    assert!(matches!(err("__indent_0 a : __indent_1 constraints : __indent_2 x"), DslError::ExpectedDash));
}

#[test]
fn error_value_kinds() {
    assert!(matches!(err("__indent_0 a : __indent_1 space : 1 2"), DslError::ExpectedExpr));
    assert!(matches!(err("__indent_0 a : __indent_1 type : 1"), DslError::ExpectedType));
    assert!(matches!(err("__indent_0 a : __indent_1 boxed : yes"), DslError::ExpectedBool));
    assert!(matches!(err("__indent_0 a : __indent_1 check : 3"), DslError::ExpectedString));
    assert!(matches!(err("__indent_0 context C : __indent_1 instruction : (1)"), DslError::ExpectedFnArg));
}

#[test]
fn error_duplicates() {
    match err("__indent_0 a : __indent_1 type : A __indent_0 a : __indent_1 type : B") {
        DslError::DuplicateAccount(n) => assert_eq!(n, "a"),
        _ => panic!("expected a duplicate account"),
    }
    match err("__indent_0 context C : __indent_1 x __indent_0 context C : __indent_1 y") {
        DslError::DuplicateKey(n) => assert_eq!(n, "C"),
        _ => panic!("expected a duplicate context"),
    }
}

#[test]
fn error_indent_too_deep() {
    let t = lex("__indent_17 a");
    assert!(matches!(check_indent(&t, 0, 17), Err(DslError::IndentTooDeep)));
    assert!(matches!(check_indent(&t, 0, 16), Err(DslError::WrongIndent(16, 17))));
    let deep = "__indent_0 a : __indent_1 constraints : __indent_17 - x";
    assert!(matches!(err(deep), DslError::WrongIndent(2, 17)));
}

#[test]
fn c_string_literals_are_not_taken_as_values() {
    assert!(anchor_context_dsl::syntax::holds_c_literal("c\"x\""));
    assert!(anchor_context_dsl::syntax::holds_c_literal("a < c\"x\" >"));
    assert!(anchor_context_dsl::syntax::holds_c_literal("cr#\"x\"#"));
    assert!(!anchor_context_dsl::syntax::holds_c_literal("b\"abc\""));
    assert!(!anchor_context_dsl::syntax::holds_c_literal("b\"c\""));
    assert!(!anchor_context_dsl::syntax::holds_c_literal("abc\"x\""));
    assert!(matches!(err("__indent_0 a : __indent_1 space : c\"x\""), DslError::ExpectedExpr));
    assert!(matches!(err("__indent_0 a : __indent_1 check : c\"x\""), DslError::ExpectedString));
}
