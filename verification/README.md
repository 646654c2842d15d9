# crust

The build tool of the Crust language: it lexes a source file (reading the
files its `get` lines name), parses the tokens into a program, and writes the
program in the CRST binary format.

The library under `src/` is verified with Verus:

- `lexer.rs`, `lexer_spec.rs`, `lexer_laws.rs`: the lexer, one step of it
  stated over the text and the position, line and column reached, and what
  holds of every run (it moves on, yields the end token only at the end, and
  places each token in its file on the line reached).
- `parser.rs`, `parser_spec.rs`: the recursive-descent parser and the grammar
  it follows, stated over the token list and the position in it.
- `format.rs`, `format_spec.rs`, `format_laws.rs`, `format_canonical.rs`: the
  CRST writer and reader, the format they follow, and the two laws that tie
  them: reading what was written gives the program back, and bytes that read
  as a program are exactly its writing.
- `ast.rs`, `token.rs`: the syntax tree and the tokens, with their models.
- `text.rs`, `output.rs`: character classes and messages, and the name of the
  file a build writes (always ending in `.crust`, so never the source).

`app/main.rs` is the command line: `crust build [--file <path>]`. It does the
file reading and writing, and the two things the lexer pauses for: reading an
included file, and the binary64 value of a decimal number.
