# oni_comb_parser

Parser combinators with machine-checked contracts (Verus).

Two families of parsers live side by side:

- `Parser` (`src/parser.rs`, `src/combinator/`, `src/text/`): parsers over a
  string input (`StrInput`) that move the input forward and report a value or a
  `Fail` (`Backtrack`, `Cut`, `ZeroProgress`). Every parser states, through
  `spec_parse`, which outcomes a parse may have. `src/laws.rs` proves the
  properties of the combinators (`attempt`, `cut`, `or`, `optional`, `many0`,
  `map`, `zip_left`, `zip_right`, ...).
- Slice parsers (`src/static_parser/`, `src/prelude/static_parsers.rs`): parsers
  over `&[u8]` or `&[char]` run at an offset, with `ParserRunner::accepts`
  saying which results are possible. `src/static_parser/laws.rs` proves their
  properties.

`src/utils/` holds repetition ranges and element sets. `app/` holds what the
verified library leaves out: logging through the `log` crate and a memoising
wrapper.
