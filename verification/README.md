# pentas

The parsing core of a small web browser, written in Verus: an HTML tokenizer and
tree builder, a CSS tokenizer and parser, selector matching and the readers of a
few CSS property values. Every function of the library carries a contract that
Verus proves; the rules of each stage are stated as mathematical models and the
executable code is proved to follow them.

## Layout

- `src/html/`: the HTML tokenizer (`token.rs`, and a second one that reads by
  index in `tokenizer.rs`) with their model in `tokenization.rs`; the document tree as an
  arena of nodes (`dom.rs`); tree construction (`parser.rs`) with its model in
  `construction.rs`, including the proof that a parse always comes to an end.
- `src/css/`: the CSS tokenizer (`token.rs`, model in `tokenization.rs`), the
  parser of style sheets (`parser.rs`, model in `parsing.rs`), the object model
  (`cssom.rs`), selectors and their grammar (`selector.rs`, `selector_syntax.rs`)
  and the value types (`dtype.rs`).
- `src/style.rs`: the first stages of the cascade: the declared values of a node
  (the blocks of the rules whose selectors match it) and the cascaded values
  (for each property, the value from the block of highest precedence), kept in an
  `indexmap::IndexMap`.
- `src/style/property/`: readers of the values of `display`, `font-size`,
  `font-family`, `width`, `height`, `margin`, `padding`, `border`,
  `border-radius`, `text-decoration-line` and `text-decoration-style`.
- `src/box_tree.rs`: the shape of the box tree: which boxes the nodes of the render
  tree generate, and the anonymous boxes that wrap runs of inline-level contents.
- `src/color.rs`, `src/text_decoration.rs`, `src/render_tree.rs`: colours,
  text decorations and display types; `src/style/property/color.rs` also reads the
  arguments of `rgb()`.
- `src/utils.rs`, `src/text.rs`: a rewindable cursor over tokens and small string
  helpers.
- `app/`: a command-line front end that parses an HTML or a CSS file and prints
  what the library builds, and checks and rounds the numbers with a fraction in
  colour functions, which need floating point.
- `tests/`: tests of the library on concrete inputs.

Numbers in CSS values keep the form the tokenizer read them in (an integer, or the
text of a number with a fraction or an exponent), so that no floating point enters
the library. Layout, painting and the style computations that work on floating
point are not part of it.
