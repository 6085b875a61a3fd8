# jff

A small C compiler that emits AArch64 assembly, written as a Verus library
whose parts carry contracts proved by Verus, and a thin command-line program
around it.

- `src/tokenize.rs`: the lexer, specified by `lex_from`, and the token
  stream that the parser takes tokens from.
- `src/parse.rs`: the recursive-descent parser; every step keeps the
  context well formed and never loses or reorders a token.
- `src/symbols.rs`: functions, block scopes, and the lookups of variables,
  struct tags, typedef names and enums.
- `src/type_utils.rs`, `src/new_node.rs`: types, typing of nodes
  (`spec_add_type`) and node constructors.
- `src/layout.rs`: struct and union layout.
- `src/codegen.rs`: the assembly emitter, specified line by line by
  `codegen_spec`.
- `src/report.rs`: the text of compile errors.
- `src/laws.rs`: properties that span several operations (scopes, lookups,
  layouts, stack frames, label numbering).
- `app/main.rs`: reads the source file (or takes the argument as the source),
  prints the assembly, or reports the error on standard error.
