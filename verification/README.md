# creamy

A compiler for XML protocol definitions, verified with Verus.

A protocol is a set of groups; each group holds enums, structs and messages,
and every message is a 32-byte record: a 4-byte header and up to 28 bytes of
payload. The library

* tokenizes the XML (`xml`, `tokenizer`),
* builds the protocol tree, interning every name into a string pool
  (`pool`, `tree`, `nodes`, with the law of its ranges in `shape`),
* resolves types, their sizes and alignments and the layout of every struct
  and message (`compiler`, `table`, `layout`, `meta`, `size`, `symbols`),
* writes and reads the binary form of a compiled definition (`codec`), and
* emits Rust bindings for a compiled definition (`generator`, `codegen`).

Every function of `src/` carries a contract that Verus proves, except a few
small wrappers whose contracts are trusted: the XML parser (`xml`) and the
standard-library calls that build a string from characters and parse an
integer (`text`). The main ones
state the result of compiling a text (`compiler::spec_compile`), the exact
text of the generated bindings (`generator::generated`) and the binary form
of a definition (`codec::enc_definition`), with the law that reading that
form back gives the definition (`codec::lemma_definition_roundtrip`).

`app/` holds what stays outside the verified library: writing to and reading
from `std::io` streams, the error messages, and the raw cast between message
types.
