# rscc

A small compiler for a subset of C (`int`, `char`, arrays, pointers taken with `&`, string
and character literals, functions of up to six arguments, `if`/`while`/`for`, compound
assignments, `sizeof`) that writes x86-64 assembly in Intel syntax. The compiler is a
library verified with Verus; a thin command-line program wraps it.

## Layout

- `src/utils.rs`: decimal text of numbers, number parsing, character buffers.
- `src/typecell.rs`: types (`int`, `char`, pointers, arrays, functions), their sizes and
  their names, with laws on pointer and array types.
- `src/token.rs`, `src/tokenizer.rs`: tokens and the tokenizer, specified by a scan over the
  source text.
- `src/node.rs`, `src/initializer.rs`: syntax trees, their listing, and initializers.
- `src/parser.rs`: the recursive-descent parser and the typing of expressions (`confirm_type`,
  specified by `type_result` and `typed_as`), local and global variables, string literals.
- `src/grammar.rs`: the expression grammar as a relation between a range of tokens and the
  operator structure (`shape`) of the tree that the parser builds from it; each expression
  function of the parser states it of what it returns.
- `src/assembly.rs`: the output buffer, label counters and register tables.
- `src/generator.rs`: the code generator, specified by `gen_spec` (the exact text written
  for each tree), with laws on label numbering and on the clearing of local arrays.
- `tests/`: tests of the library.
- `app/main.rs`: the `rscc` command: reads a file, compiles it, prints the assembly or the
  error with its place.
