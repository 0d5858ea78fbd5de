# askic

The front end of the aski language as a verified library: a lexer, a token cursor and a
recursive-descent parser that fills an arena-backed tree, with Verus contracts.

- `token`, `lexer`: tokens and the lexer; `lex` returns exactly the tokens its
  character-level specification describes, or every place where no token can start.
- `grammar`: the grammar of aski as a recognizer over token shapes.
- `syntax`: what the tokens spell, rule by rule, as trees of plain values.
- `ast`: those trees, and what it means for the arena to hold one at a reference.
- `parse`: the parser; each reading function agrees with its grammar rule and leaves in
  the arena the tree that `syntax` gives for what it read, appended in reading order:
  exactly the nodes of that tree, each after the nodes it refers to, with the returned
  reference the last one stored; a parsed program's references all point into its
  arena.
- `domain`: the tree types and the arena, with allocation that keeps the arena sound.
- `token_stream`, `error`: a cursor with save and restore, and parse errors.
- `engine`, `machine`: two borrowing token cursors that look past newlines, one that
  stays put on a mismatch and one that consumes what it reads.
- `std_string`, `text`: the string functions offered to aski programs, and decimal text.

The dialect-driven pipeline of the aski front end (`Engine`, `Machine`, `Builder`,
`ParseContext`, `Typed` and the parse values) is not part of this crate. It walks
askicc's generated dialect tree and builds values of the `aski_core`, `sema_core` and
`synth_core` crates; none of those crates nor the dialect data can be had here, and that
logic cannot be parted from their types. The parser here is the recursive-descent one,
which builds the crate's own tree.

`app/` holds the command line program: it reads a source file, parses it with the
library and writes the program as rkyv bytes.
