# kelpyshark

The front end of the KelpyShark language — lexer, Pratt parser and semantic
analyzer — written in Verus, with each stage's behaviour stated as a contract
and proved.

- `src/lexer.rs`: the token grammar as spec functions over the source's
  characters; `Lexer::tokenize` is proved to produce exactly the tokens (with
  their lines and columns) or the first error that they define.
- `src/parser.rs`: the grammar as spec functions over the token models;
  `Parser::parse` is proved to build exactly the program (or report the first
  error) that they define.
- `src/semantic.rs`: the analyzer's state has a model; each step of the walk
  is proved to follow a spec function of that model, and `analyze` / `check`
  are stated over the whole analysis.
- `src/ast.rs`, `src/error.rs`, `src/text.rs`: the syntax tree and its model,
  the error type, and string helpers.
- `app/lib.rs`: what stays outside the verified library — the `f64` value of
  number literals (which the library keeps as their numerals) and `Display`
  for the error type, token kinds, locations, operators and diagnostics.

Number literals are held as the numeral written in the source; their value is
read with `app::number_value` or `str::parse::<f64>`.
