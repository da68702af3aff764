# ryha

The Ryha toolchain: a compiler for a small expression language, written in
Verus. The library (`src/`) holds every stage with its contract, proved by
Verus:

- `lexer`: tokens and the lexer (`lex`, `tokenize` state the token stream).
- `ast`: the syntax tree and its mathematical view.
- `parser`: a Pratt parser; `sp_program` and the functions it calls state
  the parse of a token sequence, error messages included.
- `semantic`: scoped symbol tables and the name-resolution pass.
- `ir`: register instructions and the lowering of programs to them.
- `optimizer`: folding of additions of two loaded constants.
- `codegen`: assembly text.
- `security`, `obfuscator`, `voice`, `gemini`, `self_modifier`: the smaller
  tools around the compiler.
- `driver`: the whole compilation of a source text, stage by stage.
- `text`: decimal and debug text of values.

`app/` holds the programs: the compiler (standard input through `driver::compile`
to printed assembly),
the IDE shell, the assembler and linker drivers, and the network and file
parts of the Gemini client and of the self-modifier.
