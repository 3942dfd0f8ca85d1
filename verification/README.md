# zeta

A front end for the Zeta language, written in Verus: every function of the
library carries a contract that Verus proves.

## The language it accepts

The lexer and parser accept this part of Zeta:

- items: `module a.b;`, `import a.b;`, and `struct`, `enum` (variants
  without payloads) and `fn` declarations, each maybe after `export`;
- type annotations: names, `Name<A, B>`, tuples `(A, B)`, `fn(A) -> R` and
  `*T`;
- statements: `let` and `let mut` with an optional type, assignment to a
  local (also `+=`, `-=`, `*=`, `/=`), `if`/`else if`/`else`, `while`,
  `match` on names, integer, string and boolean literals and `_`, `return`,
  and expression statements;
- expressions: names, integer, string and boolean literals, array
  literals `[a, b]` (a trailing comma is allowed), calls, `||`, `&&`, `==`,
  `!=`, `<`, `<=`, `>`, `>=`, `+`, `-`, `*`, `/`, unary `!` and `-`,
  parentheses, and the postfixes `[index]`, `.field` (also `.0` and `.len`)
  and calls on dotted names: `math.answer()` and `demo.math.answer()` are
  qualified calls, `Color.Red` is a value of the enum `Color`, and
  `value.m(args)` on any receiver that is not a dotted name (`xs[0].m(1)`)
  is the call `m(value, args)`.

Not accepted: struct literals, `break`/`continue`, `for`, lambdas, `?`,
traits and `impl` blocks, enum payload types, and import aliases (`as`).
Such a program gets a parse error.

`check` runs name resolution and then the type-name check (an annotation
may name only known types); it does not type-check expressions. Programs
are lowered to the mid-level IR and checked there (operand, index, array
element, call, return and match types, among others), but not run: the
library has no interpreter and no native code generator.

## Layout

- `src/lexer.rs`: source text to tokens; `spec_lex` states the token list.
- `src/grammar.rs`: the grammar as functions from tokens to plain syntax
  values; `src/parser.rs` is the recursive-descent parser proved to compute
  them, with one diagnostic per bad item after recovery.
- `src/ast.rs`, `src/hir.rs`: the syntax tree and its text dumps.
- `src/resolver.rs`, `src/std_api.rs`: name resolution and the standard
  imports it knows; `src/typecheck.rs`: the type-name check.
- `src/mir.rs`, `src/mir/`: lowering to a mid-level IR, its checker and its
  text dump.
- `src/move_analysis.rs`: which reads of a local may move it.
- `src/module_graph.rs`, `src/module_graph/`: programs made of several
  files: the module graph check and linking.
- `src/repl.rs`, `src/line_editor.rs`: what the interactive shell shows and
  how a key edits the line.
- `app/`: the command-line program and the terminal around the line editor.
- `tests/`: tests of the library on concrete inputs.
