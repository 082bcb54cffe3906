# eopl

A small interpreter for the LETREC language of *Essentials of Programming
Languages*, verified with Verus.

    source text -> tokens -> expression -> value

- `src/token.rs`: tokens and their mathematical models.
- `src/lexer.rs`: `tokenize`, specified by `tokenize_spec` (split into pieces at
  whitespace and at `( ) , =`, then classify each piece); laws on what
  splitting keeps (`lemma_split_pieces`) and on whitespace between pieces
  (`lemma_tokenize_whitespace_insertion`, `lemma_tokenize_whitespace_replacement`).
- `src/ast.rs`: expressions and their models.
- `src/parser.rs`: `parse`, specified by a recursive-descent reading of the
  token models (`parse_spec`); the laws that parsing is the inverse of writing
  an expression's tokens (`lemma_parse_spec_iff_expr_tokens`).
- `src/interpreter.rs`: `eval`, specified by a depth-indexed big-step semantics
  (`eval_spec`) with environments and closures; laws on depth, `let`, and
  environment lookup.
- `src/lib.rs`: `parse_and_eval`, the whole pipeline.
- `app/main.rs`: the command-line program (reads a file, prints the value or
  the error message).

Arithmetic is on `i32`; a result outside that range is the error
`ArithmeticOverflow`.
