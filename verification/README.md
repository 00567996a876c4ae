# json_with_comments

A reader and a writer for JSON with comments (JSONC): JSON text that may hold
JavaScript style comments (`// ...` and `/* ... */`) and trailing commas.
The library is written in Verus, and its behaviour is stated in contracts that
Verus proves.

## Layout

- `src/` – the verified library.
  - `de/` – reading text. `de/syntax.rs` and `de/grammar.rs` state the grammar
    of JSON with comments as spec functions; `de/token.rs` is the tokenizer
    (whitespace, comments, literals, strings with their escapes, numbers), with
    one implementation per kind of input under `de/token/`; `de/access/` reads
    values and the parts of values (arrays, objects, enums) that a data format
    asks for.
  - `ser/` – writing text. `ser/formatter.rs` states how strings are escaped
    and how each layout (compact in `minify.rs`, pretty in `pretty.rs`) writes
    the events of a value; `ser/access/` writes values, arrays, objects and
    enum variants through a formatter.
  - `value.rs` and `value/` – the value type: objects keep their members in
    the order their keys were first inserted; floats are kept as the text they
    were written with. Indexing, conversions, and the parts that make values
    out of Rust data and take them apart again.
  - `roundtrip.rs`, `reread.rs`, `ser/valid_text.rs` – what holds of reading
    and writing together: the text of every value is valid UTF-8, reading the
    text of a value gives the value back, and writing what was read from a
    text and reading it again gives the same value.
- `tests/` – tests of the library on concrete inputs.
- `app/` – the serde side: `from_str`, `to_string` and friends for any
  `Deserialize` / `Serialize` type, reading from readers and files, and a value
  type whose floats are `f64`.

## What is proved

- Reading a text gives exactly what the grammar says, for every input: the
  value, or the error (with its position) that the grammar names.
- Writing a value gives exactly its compact or pretty text.
- The text of every value is valid UTF-8, and reading the text of a value
  gives the value back, when its floats are number texts and no object holds
  a key twice.
- Every value read from a text is such a value: writing it, compact or
  pretty, and reading the result gives it back.
- Inserting into an object and reading it back gives what was inserted, and
  leaves every other member where it was.
- Picking out of a value by a key, a position or a range, then writing through
  what was picked and picking again gives what was written.
- Successive reads of a tokenizer give the bytes of the input in order, each
  with its row and column; a number being collected is a float exactly when a
  fraction dot or an exponent mark was seen; the pretty layout indents two
  spaces for each array or object left open.
