# Jabr front end, verified

Jabr is a small programming language (variables, arithmetic, strings,
booleans, functions, `if`/`else`, `while`). This crate is its front end,
written in Verus: a lexer from source text to tokens and a recursive
descent parser from tokens to a syntax tree, each proved against a
specification of what it produces.

Layout:

- `src/token.rs` — tokens and their mathematical views.
- `src/lexer.rs` — the scanner; `lex` states the tokens of a text, and the
  lemmas show that they end with one end-of-input token, come in source
  order, and carry the line and column of their first character.
- `src/lexing_laws.rs` — what skipping, numbers, string literals and words
  cover, and that a newline in front moves every token one line down.
- `src/ast.rs` — the syntax tree, its views, and `binop_from_token`.
- `src/parser.rs` — the parser; one spec function per grammar rule states
  what that rule reads from a token index.
- `src/printing.rs` — printing expressions back into tokens; the laws that
  parsing gives a printed expression back and that operators group by
  precedence, left first among equals.
- `src/text.rs` — building strings from characters, decimal numerals.
- `src/lib.rs` — `parse_source`, lexing then parsing a whole text.
- `app/` — the command line program and the tree-walking interpreter,
  which computes with floating-point numbers and prints.
