# txm

TXM (Terminal TeX Math) renders mathematical formulas as text for a terminal.

```
$ txm "a/b + c"
┌─────────┐
│         │
│  a      │
│ ─── + c │
│  b      │
│         │
└─────────┘
```

The library is written in Verus: each function carries a contract over a
mathematical model, and Verus proves the code against it.

## Layout

- `src/parser.rs` — the plain-text formula syntax (`a/b`, `x^2`, `sqrt(x)`,
  `sin^2(x)`, ...), as a grammar given by spec functions and a parser proved
  to follow it. The grammar reads characters together with their classes
  (whitespace, identifier start, identifier continuation), which come from
  chumsky's `text::Char`; `parse_tokens` parses input whose classes are given.
- `src/engine.rs` — the layout engine: a formula becomes a grid of characters.
  `spec_layout` says what each construct looks like; `compute_layout` is proved
  to build exactly that, with every row as wide as the grid.
- `src/expr.rs` — the expression tree and its model.
- `src/layout_tree.rs` — the layout tree used by the LaTeX front end: node
  constructors with their sizes.
- `src/glyph.rs` — the LaTeX macros (`\frac`, `\sqrt`, `\mathbb`, ...) and the
  mathematical alphabets.
- `src/terminal.rs` — the character buffer of the terminal back end.
- `src/widget.rs` — alignment of a rendered formula in a rectangle, the plan of
  what to write where, and cutting a line by display columns; character widths
  come from unicode-width, and `draw_cells` / `column_span_of` take them as given.
- `app/` — the command line program and the ratatui widget, which carry out
  what the library computes.
