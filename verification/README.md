# huzi

The compiler for the Huzi language (`huzc`): a small, Python-looking,
compiled language with structs, enums, `match`, arrays and a few built-in
functions, translated to LLVM IR and linked into an executable.

The library (`src/`) is verified with Verus. It holds:

- `text`, `error`, `token`: decimal writing, diagnostics and their rendering, tokens;
  `suggest`: "did you mean" hints by edit distance.
- `lexer`: source text to tokens, with a functional specification of the
  lexical grammar (`lex`); `comments`: what the lexer reads depends only on
  the text ahead, and a line comment changes no token, line or column.
- `ast`, `grammar`, `parser`: the syntax tree, the grammar as a function from
  tokens to syntax (`grammar`), and the recursive-descent parser proved to
  follow it; `parse_source` lexes and parses a whole source.
- `decls`, `program`: the checks on struct and enum definitions (by-value
  reference cycles, duplicates, unknown types), enum layouts, struct literals,
  enum constructors and `match` targets, the entry-point rule, and the rules
  on assignment, loops and `match` arms.
- `ops`, `builtins`, `scopes`: how generated code treats values of each type
  (operators, conversions, conditions, indices, literals, the run-time
  checks on divisors and array indices), the built-in
  functions, and nested variable scopes.
- `cli`, `modules`: the command-line settings (linker, build mode, output
  files, the arguments of `opt` and `llc`), and module loading: the imports
  of a program, the files they name, what a module may hold, and what each
  import does given what is loaded.

`app/` is the command-line program: argument parsing, file I/O (reading
the source and module files), LLVM IR
emission with inkwell (following the library's decisions), and running `llc`
and the linker.
