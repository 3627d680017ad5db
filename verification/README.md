# anchor_context_dsl

A YAML-like language for Anchor account contexts, written in Verus.

```
cell:
  type: Cell
  boxed: true
  if init:
    space: 10240
    seeds: [b"cell", cell_id.to_le_bytes().as_ref()]
  else:
    seeds: [b"cell", cell.id.to_le_bytes().as_ref()]

context NewCell:
  instruction: (cell_id: u32)
  cell: [init]
```

The library (`src/`) takes the tokens of a macro input and:

1. marks where lines start and how far they are indented (`indented`);
2. reads the document: account definitions and contexts (`grammar` states the
   grammar, `parse` reads it);
3. builds each context: the accounts it names, those they depend on, each with the
   properties its arguments select, and the program accounts it needs (`builder`,
   `programs`);
4. compiles the accounts into the parts of Anchor structs: field types,
   `#[account(..)]` arguments, wrapper types, and the constants taken out of seeds
   (`render`, `output`), or plans the completion of the hand-written context
   structs of a module (`attribute`, `module`).

Every function states its result in its contract; `laws` holds what holds across
them.  Judgments on Rust syntax (is this an expression, a path, an identifier) are
left to `syn`, through the functions of `syntax`.

`app/` holds the macros themselves over `proc_macro2` tokens: converting tokens,
and rendering the compiled parts with `quote`.
