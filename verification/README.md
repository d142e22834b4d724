# lini — verified core

The logic of the Lini diagram compiler that can be stated and proved: each
public function carries a contract over mathematical models (sequences of
characters, integers, the `Val` reading of resolved values), and Verus proves
the code against it.

## Layout

- `src/lexer/` — the tokenizer. `spec.rs` says what lexing a text means, one
  step at a time; `scan.rs` is the loop, proved step for step against it, with
  byte spans computed from the characters' UTF-8 widths.
- `src/ledger/` — the property tables and their classifiers, the `format:`
  engine (`format.rs`, `format/numbers.rs`: fixed, significant, scientific,
  engineering, fractional renderings on exact decimals) and the civil calendar
  (`date.rs`: ISO-8601 instants, day counts both ways, date text).
- `src/resolve.rs` — the resolved value model (`ResolvedValue`, its `Val`
  reading, exact decimals `Num`), attribute maps and the variable table.
- `src/render/` — value formatting, the CSS rule set and its cascade, the
  stylesheet's paint props, the `@layer` block, gradient and hatch interning,
  font-stack rewriting, icon fit, and the variable tree-shake (`used_vars.rs`).
- `src/layout/wires/` — the routing vocabulary: rules and violations, route
  requests, bundles and fan groups, the channel-graph ids, the feedback probe.
- `src/name.rs`, `src/palette/`, `src/figures.rs`, `src/text.rs` — content
  names, the palette's CSS, number text both ways (writing exact decimals
  and reading decimal text), and string helpers.
- `app/` — what stays outside the proofs: the OKLCH colour math (floating
  point) that produces the palette's hex values, and conversions between
  floats and the library's exact decimals.
- `tests/` — runtime tests of the library.

## What stays outside the library

The library holds the compiler's pure logic; these parts are not in it:

- wire routing and everything else that works on floating-point geometry
  (bundle routing, fillets, rotations, the channel search itself);
- SVG rendering: assembling the document, links, wires, primitives, filters
  and glyph outlines from the laid-out geometry;
- the stylesheet's top-level build and the families that read link and
  layout data this crate does not model: link and link-label rules,
  sequence and chart text, the projection line and descendant rules;
- the parser, desugaring, resolution, the lint and the validator;
- the pipeline entry points and the command line;
- font metrics and glyph data.
