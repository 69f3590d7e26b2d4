# surgeist-template

Template and DSL-facing contracts for Surgeist: a strict parser for
HTML-like template markup with `{$expr}` interpolation, `{if}` and
`{foreach}` blocks and `{* ... *}` comments; a validator that checks a parsed
template against registries of native elements and components; and a
renderer that writes a validated template as Rust source.

The library is written in Verus and every public operation is proved against
a mathematical statement of what it does:

- `src/grammar.rs` states, over character positions, the tree or the error
  that each source text denotes; `parse_template` (`src/parser.rs`) is proved
  to produce exactly that, spans included.
- `src/expr.rs` states the expression grammar (`||` < `&&` < comparisons <
  `+ -` < `* / %`, prefix `!` and `-`) and proves `parse_simple_expr` against it.
- `src/validate.rs` proves that validation returns the authored tree
  unchanged, or the first error in document order.
- `src/render.rs` proves the exact text `render_to_rust` writes, and
  `src/readback.rs` proves that the expression source it writes parses back
  to the expression it was written from.

Float literals are kept as the decimal text they were written with, since
the verified library does no floating-point arithmetic: two literals compare
equal when their texts are equal (`1.50` and `1.5` differ), and a literal
renders as written (`2.0` renders as `2.0`, where `f64` formatting would
write `2`). `app/` holds the helpers that turn that text into an `f64` and
format an `f64` as expression source.

Registries and element specs keep their specs ordered by name, whatever
order they were given in, so two registries built from the same specs
compare equal; `src/validate.rs` proves that this arrangement depends only
on which specs were given.
