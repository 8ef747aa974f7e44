# rusty_danda

Front end and byte-code writer of the Rusty Danda language, with every
function of the library verified by Verus.

- `src/lexer` splits source text into tokens (keywords, symbols, words);
  `src/lexer/lexemes.rs` holds the token kinds used by the later passes.
- `src/compiler` checks identifiers and keywords.
- `src/token_refactor` refines the tokens of a source file: strings,
  numbers, comments, semicolon runs and two-character operators.
- `src/ast_parser` refines the tokens of a grammar file (`formater.rs`) and
  reads its heads and nodes (`ast_parser.rs`).
- `src/parser` cuts code blocks and values out of a token list.
- `src/expression_parser.rs` turns a flat list of values and operators into
  an expression tree.
- `src/intermediate` holds the dictionary of identifiers and its types,
  registers declarations (`declarations.rs`), reads types (`types.rs`) and
  function signatures (`signatures.rs`) from plain values read off the
  syntax tree.
- `src/runtime` holds the virtual machine's values and instructions,
  `src/writer` writes a program as text, `src/test` loads sample programs.
- `src/text.rs` holds the character, number and UTF-8 helpers they share.

`app/` is the command-line program around the library: reading files,
writing `target.dasm`, and printing values.
