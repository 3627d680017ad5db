use anchor_context_dsl::attribute::{StructField, complete_struct, parse_account_attr, read_struct};
use anchor_context_dsl::builder::build_contexts;
use anchor_context_dsl::indented::{SourceTree, create_indented_tokenstream, odd_indent};
use anchor_context_dsl::output::{CompiledDoc, compile, contexts_typed, format_metas, lay_out_code, merge_constants};
use anchor_context_dsl::token::{Delim, Tok, tokens_text};
use anchor_context_dsl::types::{DslError, YamlDoc};
use proc_macro2::{Delimiter, Spacing, TokenStream, TokenTree};

fn flatten(ts: TokenStream, out: &mut Vec<Tok>) {
    for tt in ts {
        flatten_tree(tt, out);
    }
}

fn flatten_tree(tt: TokenTree, out: &mut Vec<Tok>) {
    match tt {
        TokenTree::Group(g) => {
            let d = match g.delimiter() {
                Delimiter::Parenthesis => Delim::Paren,
                Delimiter::Bracket => Delim::Bracket,
                Delimiter::Brace => Delim::Brace,
                Delimiter::None => Delim::Invisible,
            };
            out.push(Tok::Open(d));
            flatten(g.stream(), out);
            out.push(Tok::Close(d));
        }
        TokenTree::Ident(i) => out.push(Tok::Ident(i.to_string())),
        TokenTree::Punct(p) => out.push(Tok::Punct(p.as_char(), p.spacing() == Spacing::Joint)),
        TokenTree::Literal(l) => out.push(Tok::Literal(l.to_string())),
    }
}

fn lex(src: &str) -> Vec<Tok> {
    let ts: TokenStream = src.parse().unwrap();
    let mut out = Vec::new();
    flatten(ts, &mut out);
    out
}

fn text(t: &[Tok]) -> String {
    tokens_text(t).into_iter().collect()
}

/// The top-level trees of `inner`, each found in the source by its printed form (the
/// sources below are written in that form).
fn trees_of(inner: &str) -> Vec<SourceTree> {
    let ts: TokenStream = inner.parse().unwrap();
    ts.into_iter()
        .map(|tt| {
            let t = match &tt {
                TokenTree::Punct(p) if p.as_char() == '\'' => "'".to_string(),
                _ => tt.to_string(),
            };
            let mut toks = Vec::new();
            flatten_tree(tt, &mut toks);
            SourceTree { toks, text: Some(t) }
        })
        .collect()
}

fn marked(inner: &str) -> Result<Vec<Tok>, String> {
    let source = format!("{{{}}}", inner);
    let trees = trees_of(inner);
    match odd_indent(&source, &trees) {
        Some(p) => Err(p),
        None => Ok(create_indented_tokenstream(&source, &trees)),
    }
}

const DOC: &str = "
quote_mint:
  type: Mint
  constraints:
    - quote_mint . freeze_authority . is_none ()

// a boxed one, made by the context below
cell:
  type: Cell
  boxed: true
  if init:
    space: 10240
    seeds: [b\"cell\" , cell_id . to_le_bytes () . as_ref ()]
  else:
    seeds: [b\"cell\" , cell . id . to_le_bytes () . as_ref ()]

context NewCell:
  instruction: (cell_id : u32)
  cell: [init]
  quote_mint
";

fn doc_of(inner: &str) -> YamlDoc {
    YamlDoc::parse(&marked(inner).unwrap()).unwrap()
}

fn compiled(inner: &str) -> CompiledDoc {
    let built = build_contexts(&doc_of(inner)).unwrap();
    assert!(contexts_typed(&built));
    compile(built)
}

#[test]
fn markers_count_pairs_of_spaces() {
    let t = marked("\na:\n  type: A\n    x").unwrap();
    assert_eq!(text(&t), "__indent_0 a : __indent_1 type : A __indent_2 x");
}

#[test]
fn tokens_on_one_line_get_no_marker() {
    let t = marked("a b\nc").unwrap();
    assert_eq!(text(&t), "a b __indent_0 c");
}

#[test]
fn a_tree_without_text_is_left_out() {
    let mut trees = trees_of("a b");
    trees[1].text = None;
    let t = create_indented_tokenstream("{\na b}", &trees);
    assert_eq!(text(&t), "__indent_0 a");
}

#[test]
fn odd_indentation_is_refused() {
    match marked("\na:\n   type: A") {
        Err(p) => assert_eq!(p, "\n   "),
        _ => panic!("expected an odd indentation"),
    }
}

#[test]
fn builds_and_compiles_a_document() {
    let out = compiled(DOC);
    assert_eq!(out.contexts.len(), 1);
    let ctx = &out.contexts[0];
    assert_eq!(ctx.name, "NewCell");
    let args = ctx.instruction.as_ref().unwrap();
    assert_eq!(args.len(), 1);
    assert_eq!(text(&args[0]), "cell_id : u32");
    let names: Vec<&str> = ctx.accounts.iter().map(|a| a.name.as_str()).collect();
    assert_eq!(names, vec!["cell", "quote_mint", "system_program", "payer"]);

    let cell = &ctx.accounts[0];
    assert_eq!(text(&cell.ty), "Box < Account < 'info , Cell > >");
    assert_eq!(text(&cell.wrapped_ty), "Box < Account < 'info , Cell > >");
    assert_eq!(
        format_metas(cell.metas.as_ref().unwrap()),
        "#[account(\n        init,\n        payer = payer,\n        seeds = [KEY_CELL_0 , cell_id . to_le_bytes () . as_ref ()],\n        bump,\n        space = 10240\n    )]"
    );

    let mint = &ctx.accounts[1];
    assert_eq!(text(&mint.ty), "Account < 'info , Mint >");
    assert_eq!(text(&mint.wrapped_ty), "ReadOnly < Account < 'info , Mint > >");
    assert_eq!(
        format_metas(mint.metas.as_ref().unwrap()),
        "#[account(\n        constraint = quote_mint . freeze_authority . is_none ()\n    )]"
    );

    let sys = &ctx.accounts[2];
    assert_eq!(text(&sys.ty), "Program < 'info , System >");
    assert!(sys.metas.is_none());
    let payer = &ctx.accounts[3];
    assert_eq!(text(&payer.ty), "Signer < 'info >");
    assert_eq!(format_metas(payer.metas.as_ref().unwrap()), "#[account(\n        mut\n    )]");
    assert_eq!(text(&payer.wrapped_ty), "Signer < 'info >");

    assert_eq!(out.constants.len(), 1);
    assert_eq!(out.constants[0].0, "KEY_CELL_0");
    assert_eq!(text(std::slice::from_ref(&out.constants[0].1)), "b\"cell\"");
}

#[test]
fn the_else_branch_without_init() {
    let out = compiled(
        "
cell:
  type: Cell
  if init:
    space: 8
  else:
    seeds: [b\"my-cell\" , x]

context UseCell:
  cell: [mut]
",
    );
    let ctx = &out.contexts[0];
    let names: Vec<&str> = ctx.accounts.iter().map(|a| a.name.as_str()).collect();
    assert_eq!(names, vec!["cell"]);
    assert_eq!(
        format_metas(ctx.accounts[0].metas.as_ref().unwrap()),
        "#[account(\n        seeds = [KEY_MY_CELL_0 , x],\n        bump,\n        mut\n    )]"
    );
    assert_eq!(out.constants[0].0, "KEY_MY_CELL_0");
}

#[test]
fn account_types_by_kind() {
    let out = compiled(
        "
a:
  type: Big
  zero_copy: true
b:
  type: Mint
  mint::token_program: token_program_2022
  mint::authority: a
c:
  type: UncheckedAccount<'info>
  check: \"anything goes\"

context K:
  a
  b: [mut]
  c
",
    );
    let ctx = &out.contexts[0];
    let find = |n: &str| ctx.accounts.iter().find(|a| a.name == n).unwrap();
    assert_eq!(text(&find("a").ty), "AccountLoader < 'info , Big >");
    assert_eq!(text(&find("b").ty), "InterfaceAccount < 'info , Mint >");
    assert_eq!(text(&find("c").ty), "UncheckedAccount <'info >");
    assert_eq!(find("c").check_doc.as_deref(), Some("CHECK anything goes"));
    assert!(ctx.accounts.iter().any(|a| a.name == "token_program_2022"));
    assert!(!ctx.accounts.iter().any(|a| a.name == "system_program"));
}

#[test]
fn depends_pulls_in_accounts() {
    let out = compiled(
        "
a:
  type: A
  depends: [b]
b:
  type: B

context K:
  a
",
    );
    let names: Vec<&str> = out.contexts[0].accounts.iter().map(|a| a.name.as_str()).collect();
    assert_eq!(names, vec!["a", "b"]);
}

#[test]
fn an_undefined_account_fails_the_build() {
    let doc = doc_of("\na:\n  type: A\n\ncontext K:\n  a\n  missing\n");
    match build_contexts(&doc) {
        Err(DslError::UndefinedAccount(n)) => assert_eq!(n, "missing"),
        _ => panic!("expected an undefined account"),
    }
}

#[test]
fn an_account_without_type_is_reported() {
    let doc = doc_of("\na:\n  boxed: true\n\ncontext K:\n  a\n");
    let built = build_contexts(&doc).unwrap();
    assert!(!contexts_typed(&built));
}

#[test]
fn constants_are_merged_by_name() {
    let found = vec![
        ("KEY_B_0".to_string(), Tok::Literal("b\"b\"".to_string())),
        ("KEY_A_0".to_string(), Tok::Literal("b\"a\"".to_string())),
        ("KEY_B_0".to_string(), Tok::Literal("b\"B\"".to_string())),
    ];
    let merged = merge_constants(&found);
    let names: Vec<&str> = merged.iter().map(|c| c.0.as_str()).collect();
    assert_eq!(names, vec!["KEY_A_0", "KEY_B_0"]);
    assert_eq!(text(std::slice::from_ref(&merged[1].1)), "b\"B\"");
}

#[test]
fn account_attribute_arguments() {
    let args = parse_account_attr(&lex("(init, mut,)")).unwrap();
    let words: Vec<&str> = args.iter().map(|a| a.0.as_str()).collect();
    assert_eq!(words, vec!["init", "mut"]);
    assert!(parse_account_attr(&lex("()")).unwrap().is_empty());
    assert!(parse_account_attr(&lex("(init mut)")).is_none());
    assert!(parse_account_attr(&lex("= x")).is_none());
}

#[test]
fn completes_a_struct() {
    let doc = doc_of(DOC);
    let fields = vec![
        StructField { name: "cell".to_string(), attr: Some(lex("(init)")) },
        StructField { name: "quote_mint".to_string(), attr: None },
    ];
    let props = read_struct(&fields).unwrap();
    assert_eq!(props.len(), 2);
    let plan = complete_struct(&fields, &doc.1).unwrap().unwrap();
    assert_eq!(plan.field_metas.len(), 2);
    assert_eq!(
        format_metas(plan.field_metas[0].as_ref().unwrap()),
        "#[account(\n        init,\n        payer = payer,\n        seeds = [b\"cell\" , cell_id . to_le_bytes () . as_ref ()],\n        bump,\n        space = 10240\n    )]"
    );
    let added: Vec<&str> = plan.new_fields.iter().map(|f| f.name.as_str()).collect();
    assert_eq!(added, vec!["system_program", "payer"]);
    assert_eq!(text(&plan.new_fields[1].ty), "Signer < 'info >");
    assert_eq!(plan.wrapper.len(), 4);
}

#[test]
fn a_bad_field_attribute_is_refused() {
    let doc = doc_of(DOC);
    let fields = vec![StructField { name: "cell".to_string(), attr: Some(lex("(init mut)")) }];
    match complete_struct(&fields, &doc.1) {
        Err(DslError::BadAccountAttr(n)) => assert_eq!(n, "cell"),
        _ => panic!("expected a bad attribute"),
    }
}

#[test]
fn compiling_twice_gives_the_same_order() {
    let a = compiled(DOC);
    let b = compiled(DOC);
    let na: Vec<String> = a.contexts[0].accounts.iter().map(|x| x.name.clone()).collect();
    let nb: Vec<String> = b.contexts[0].accounts.iter().map(|x| x.name.clone()).collect();
    assert_eq!(na, nb);
    assert_eq!(a.constants.len(), b.constants.len());
}

#[test]
fn a_written_account_keeps_its_type_in_the_wrapper() {
    let out = compiled("\na:\n  type: A\n\nb:\n  type: B\n\ncontext K:\n  a: [mut]\n  b\n");
    let ctx = &out.contexts[0];
    let a = ctx.accounts.iter().find(|x| x.name == "a").unwrap();
    let b = ctx.accounts.iter().find(|x| x.name == "b").unwrap();
    assert_eq!(text(&a.wrapped_ty), text(&a.ty));
    assert_eq!(text(&b.wrapped_ty), "ReadOnly < Account < 'info , B > >");
    assert_eq!(format_metas(a.metas.as_ref().unwrap()), "#[account(\n        mut\n    )]");
}

#[test]
fn the_same_constant_from_two_contexts_is_kept_once() {
    let out = compiled(
        "
a:
  type: A
  seeds: [b\"pool\" , x]
b:
  type: B
  seeds: [b\"pool\" , y]

context K:
  a
context L:
  b
",
    );
    assert_eq!(out.contexts.len(), 2);
    assert_eq!(out.constants.len(), 1);
    assert_eq!(out.constants[0].0, "KEY_POOL_0");
}

#[test]
fn accounts_are_ordered_by_the_form_of_their_type() {
    // `syn` writes a path with a leading `::` after the plain ones.
    let out = compiled("\na:\n  type: ::Zed\n\nb:\n  type: Yak\n\ncontext K:\n  a\n  b\n");
    let names: Vec<&str> = out.contexts[0].accounts.iter().map(|x| x.name.as_str()).collect();
    assert_eq!(names, vec!["b", "a"]);
    assert_eq!(text(&out.contexts[0].accounts[1].ty), "Account < 'info , :: Zed >");
}

#[test]
fn generated_code_is_laid_out_for_reading() {
    let code = "\"#[account(\\n        mut,\\n        constraint = a == \\\"x\\\"\\n    )]\" pub a : T";
    assert_eq!(
        lay_out_code(code),
        "\n#[account(\n        mut,\n        constraint = a == \"x\"\n    )] pub a : T"
    );
    assert_eq!(lay_out_code("x #[derive(Accounts)] y"), "x \n\n\n#[derive(Accounts)] y");
    assert_eq!(lay_out_code("plain"), "plain");
}

#[test]
fn init_if_needed_creates_with_a_payer() {
    let out = compiled(
        "
ata:
  type: TokenAccount
  init_if_needed: true
  associated_token::mint: mint
  associated_token::authority: owner

context K:
  ata
",
    );
    let ctx = &out.contexts[0];
    let names: Vec<&str> = ctx.accounts.iter().map(|a| a.name.as_str()).collect();
    assert!(names.contains(&"system_program"));
    assert!(names.contains(&"payer"));
    assert!(names.contains(&"associated_token_program"));
    assert!(names.contains(&"token_program"));
    let ata = ctx.accounts.iter().find(|a| a.name == "ata").unwrap();
    assert_eq!(
        format_metas(ata.metas.as_ref().unwrap()),
        "#[account(\n        init_if_needed,\n        payer = payer,\n        associated_token :: mint = mint,\n        associated_token :: authority = owner\n    )]"
    );
    assert_eq!(text(&ata.wrapped_ty), text(&ata.ty));
}

#[test]
fn init_if_needed_false_creates_nothing() {
    let out = compiled(
        "
ata:
  type: TokenAccount
  init_if_needed: false
  associated_token::mint: mint
  associated_token::authority: owner

context K:
  ata
",
    );
    let ctx = &out.contexts[0];
    let names: Vec<&str> = ctx.accounts.iter().map(|a| a.name.as_str()).collect();
    assert!(!names.contains(&"system_program"));
    assert!(!names.contains(&"payer"));
    let ata = ctx.accounts.iter().find(|a| a.name == "ata").unwrap();
    assert_eq!(
        format_metas(ata.metas.as_ref().unwrap()),
        "#[account(\n        associated_token :: mint = mint,\n        associated_token :: authority = owner\n    )]"
    );
    assert_ne!(text(&ata.wrapped_ty), text(&ata.ty));
}

#[test]
fn noinit_properties_apply_without_init() {
    let doc = "
a:
  type: A
  init:
    space: 8
  noinit:
    constraints:
      - a . ready

context Make:
  a: [init]
context Use:
  a
";
    let out = compiled(doc);
    let make = out.contexts.iter().find(|c| c.name == "Make").unwrap();
    let used = out.contexts.iter().find(|c| c.name == "Use").unwrap();
    let a_make = make.accounts.iter().find(|a| a.name == "a").unwrap();
    let a_use = used.accounts.iter().find(|a| a.name == "a").unwrap();
    assert_eq!(
        format_metas(a_make.metas.as_ref().unwrap()),
        "#[account(\n        init,\n        payer = payer,\n        space = 8\n    )]"
    );
    assert_eq!(format_metas(a_use.metas.as_ref().unwrap()), "#[account(\n        constraint = a . ready\n    )]");
    assert_eq!(used.accounts.len(), 1);
}

#[test]
fn constant_names_come_from_the_upper_case_text() {
    assert_eq!(anchor_context_dsl::render::constant_name("MY-CELL", 0), "KEY_MY_CELL_0");
    assert_eq!(anchor_context_dsl::render::constant_name("POOL", 12), "KEY_POOL_12");
}

#[test]
fn check_indent_reads_a_marker() {
    let toks = lex("__indent_2 a");
    assert!(matches!(anchor_context_dsl::parse::check_indent(&toks, 0, 2), Ok(1)));
    assert!(matches!(anchor_context_dsl::parse::peek_indent(&toks, 0, 1), Ok(false)));
}

#[test]
fn plans_the_context_structs_of_a_module() {
    let doc = doc_of(DOC);
    let module = "mod program { \
        pub struct Plain { pub x : u8 } \
        #[context] pub struct NewCell < 'info > { \
            #[account(init)] pub cell : Account < 'info , Cell > , \
            pub quote_mint : Account < 'info , Mint > , \
        } \
        fn f () {} \
    }";
    let plans = anchor_context_dsl::module::plan_module(module, &doc.1).unwrap();
    assert_eq!(plans.len(), 1);
    assert_eq!(plans[0].0, 1);
    let plan = &plans[0].1;
    assert_eq!(plan.field_metas.len(), 2);
    assert!(format_metas(plan.field_metas[0].as_ref().unwrap()).starts_with("#[account(\n        init,\n        payer = payer,"));
    let added: Vec<&str> = plan.new_fields.iter().map(|f| f.name.as_str()).collect();
    assert_eq!(added, vec!["system_program", "payer"]);
}

#[test]
fn module_failures_are_reported() {
    let doc = doc_of(DOC);
    let m = anchor_context_dsl::module::plan_module;
    assert!(matches!(m("struct X {}", &doc.1), Err(DslError::NotAModule)));
    assert!(matches!(m("mod p;", &doc.1), Err(DslError::NotAModule)));
    assert!(m("mod p { pub struct X { pub a : u8 } }", &doc.1).unwrap().is_empty());
    match m("mod p { #[context] pub struct X { pub missing : u8 } }", &doc.1) {
        Err(DslError::UndefinedAccount(n)) => assert_eq!(n, "missing"),
        _ => panic!("expected an undefined account"),
    }
    match m("mod p { #[context] pub struct X { #[account(init mut)] pub cell : u8 } }", &doc.1) {
        Err(DslError::BadAccountAttr(n)) => assert_eq!(n, "cell"),
        _ => panic!("expected a bad attribute"),
    }
    assert!(matches!(
        m("mod p { #[context] pub struct X { pub cell : u8 , pub cell : u8 } }", &doc.1),
        Err(DslError::DuplicateField)
    ));
    match m("mod p { #[context] pub struct X (u8) ; }", &doc.1) {
        Err(DslError::UnnamedField(n)) => assert_eq!(n, "X"),
        _ => panic!("expected an unnamed field"),
    }
}

#[test]
fn lexes_a_text_into_flat_tokens() {
    let t = anchor_context_dsl::module::lex("(a , [b]) c", 11).unwrap();
    assert_eq!(text(&t), text(&lex("(a , [b]) c")));
    assert!(anchor_context_dsl::module::lex("(a)", 0).is_none());
}
