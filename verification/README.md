# A small interpreted language, verified

A lexer, a recursive-descent parser and a tree-walking virtual machine for a
toy language with `let` declarations, functions, `return` and `if`, written
in Verus. Each executable function is proved against a specification
function over mathematical values.

Layout:

- `src/text.rs`: character classes (whitespace decided here; letters and
  alphanumerics from `char`) and string
  building.
- `src/token.rs`: tokens and their views.
- `src/lexer.rs`: the lexer, specified by `lex_token` and `lex_all`.
- `src/ast.rs`: the syntax tree and its views.
- `src/parser.rs`: the parser, specified by the `p_*` functions, each giving
  the number of tokens taken and the result.
- `src/floats.rs`: float semantics supplied by the caller.
- `src/table.rs`: a table from names to values, viewed as a map.
- `src/value.rs`, `src/vm.rs`: values and the machine, specified by the
  big-step functions `eval`, `call`, `exec_stmt` and their helpers.
- `src/laws.rs`: properties across calls and inputs.
- `tests/`: tests on concrete programs.
- `app/main.rs`: runs the sample program, with IEEE-754 doubles as the float
  semantics.

Where some input has no meaning (an unknown character, a malformed
declaration, a type error, division by zero, ...), a function comes in two
forms. `f` requires input that has one, and its contract gives the result;
`try_f` accepts any input and its contract names exactly the error it gives
on the rest. `tokenize`, and the program in `app/`, go through the `try_`
forms and stop on the first error.
