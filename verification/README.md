# potigol_interpreter

A lexer and a parser for the Potigol teaching language, with the scopes an
interpreter keeps its variables in, all verified with Verus; and a small
program that runs a source file.

- `src/lexer`: tokens from source text. `spec.rs` states the token grammar
  over character sequences; `mod.rs` reads tokens and is proved to give what
  the grammar gives. `lexer.rs` holds a prefix tree of words.
- `src/parser`: statements and expressions from tokens. `spec.rs` states the
  grammar (operator precedence, blocks, loops, functions) over token
  sequences; `rules.rs` parses and is proved to give what the grammar gives.
- `src/interpreter/walker/types.rs`: nested scopes of variables and constants.

The trie's children and a scope's bindings are kept as vectors of pairs rather
than hash maps: their contents then have a plain mathematical view (a list)
that the proofs reason about directly, where a hash map keyed by a character
or a string gives the proofs little to work with.
- `src/bytecode`: a compiler front that emits no instruction yet.
- `app/`: the command-line program and the tree-walking evaluator, whose
  values are floating point numbers.

The program takes the path of a source file as its only argument.
