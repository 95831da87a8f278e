# xshape

Reshape the geometry of a single CSV/DSV table — unpivot, pivot, split, explode, merge,
transpose — without changing, filtering or aggregating a value.

The library under `src/` is written in Verus: its functions carry `requires`/`ensures`
contracts over a mathematical model of the table (`TableView`: an optional header and rows of
`Seq<char>` cells), and Verus proves the code against them. The exceptions are a few small
trusted wrappers, marked `#[verifier::external_body]`, around the calls into `xaddr`
(parsing and resolving addresses, column letters), `csv` (reading and writing records) and
std (`Path::extension`, number and `Debug` formatting); their contracts are assumed, and the
results they cannot state in a few lines are named rather than described.

- `model.rs` — the table and its view; cells past a short row read as empty.
- `addr.rs` — column addresses (`C`, `[name]`, `E:K`, `B:`, lists), parsed and resolved by
  the `xaddr` crate against the table, strictly; single-column flags take one atom.
- `io.rs` — reading and writing delimited text through the `csv` crate (with the condition
  under which what is written reads back unchanged), `--delim` parsing, the default delimiter
  for a path, the encoding warning's lines.
- `verbs.rs` — the six reshapes, each with an exact specification, and the reshapes over
  already-resolved columns that they call.
- `laws.rs` — proved properties that span calls: transposing twice restores the padded
  table, merge undoes a uniform split, pivot undoes unpivot, explode keeps every row and
  every piece, unpivot gathers every cell, a skill's version stamp reads back, a current
  skill is not rewritten, a list has one name more than commas.
- `cli.rs`, `skill.rs` — the decisions of the command line and of the skill installer (the
  stamp, what an install writes, what an uninstall removes, the lines each reports).
- `text.rs`, `errors.rs` — splitting and joining text, messages, the error type.

`app/main.rs` is the command line itself (argument parsing with `clap`, files, stdin and
stdout, the encoding warning from `encsniff`); it only moves values between the outside world
and the library.
