# Selene

A small scripting language with Portuguese error messages: a scanner, a
recursive-descent parser, a resolver for lexical scopes and a tree-walking
evaluator.

`src/` is the library, proved against its contracts:

- `token`, `text` — tokens, and the string helpers the rest builds on;
- `scanner` — source text to tokens; `scan_all` states the whole scan;
- `expr`, `stmt` — the syntax tree and its mathematical view;
- `parser` — the grammar as spec functions (`parser/grammar.rs`), the
  parser proved to follow it, and the distinctness of expression
  identifiers (`parser/ids.rs`);
- `resolver` — the resolution rules (`resolver/rules.rs`) and the resolver
  that follows them;
- `interpreter` — the scopes of a running program and the fields of objects
  (`environment`), the runtime errors and the built-in `clock` (`values`);
- `ast_printer` — expressions written out as text.

`app/` is the command that runs a program. Evaluation computes with `f64`,
so it lives there and keeps its variables and fields in the library's
`Environment` and `Fields`.

`tests/` exercises the library on concrete programs.
