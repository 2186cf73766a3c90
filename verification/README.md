# betteralgo

A compiler from the algorithmic language of BetterAlgoPapier (`afficher`,
`declarer`, `<-`, scalar types) to Python, written in Verus.

- `src/text.rs`: character and string helpers (decimal notation, lines).
- `src/errors.rs`: `Span`, `ErrorKind`, `CompileError`, their rendering with a
  `^^^` cursor, and keyword suggestions by edit distance.
- `src/lexer/`: tokens and the lexer, specified step by step by `lex_step`.
- `src/parser/`: the syntax tree and the recursive-descent parser, specified
  by the grammar functions (`statement_at`, `expr_at`, ...).
- `src/codegen/`: Python generation, specified by `program_python`.
- `app/main.rs`: the command-line program (file reading, printing, and the
  writing of real literals, which goes through floating point).
