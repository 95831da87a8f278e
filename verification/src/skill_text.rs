//! The skill pages shipped with the tool, installed by `--install-skill`.
use vstd::prelude::*;

verus! {

/// `SKILL.md`: the page that tells an agent when and how to reach for the tool.
pub const SKILL_MD: &'static str = "---
name: xshape
description: >-
  Reshape the geometry of a single CSV/DSV table with the `xshape` CLI \u{2014} the reshaping
  verb in the tabular family. Use this when a task means changing which axis holds which
  cells without changing a value: unpivot a wide export to long (a `fy2020\u{2026}fy2026` spread
  into year/amount rows) so it can be queried, pivot a long key/value table back to a
  matrix, split one column into several by a delimiter, explode a `;`-delimited cell into
  one row per value, merge several columns into one, or transpose a table that arrived
  sideways. Prefer it over Miller (`mlr reshape`), tidyr, or a one-off pandas
  `melt`/`pivot`/`explode`, because it shares xled's column-addressing dialect, parses CSV
  correctly (quotes, embedded commas and newlines), never coerces or trims a value, and
  errors rather than silently aggregate. Do NOT use it to edit cell *values* (strip
  currency, recase, compute \u{2014} that's xled) or to filter, aggregate, group, join, or dedupe
  the row *set* (that's SQL/DuckDB, xql); an aggregating pivot (`pivot \u{2026} SUM`) is a query,
  not a reshape.
---

# xshape \u{2014} reshape for tabular data

`xshape` changes the **geometry** of a single table \u{2014} which axis holds which cells \u{2014} and
never changes, filters, computes, or aggregates a value. Every input cell reappears in the
output unchanged; nothing is invented, summarized, or dropped. It is the reshaping verb
between [xled](https://github.com/excelano/xled) (which edits values but never moves them)
and [xql](https://github.com/excelano/xql) (which queries the row set but never
restructures the axes).

The authoritative sources for xshape's behavior are the binary itself (`xshape --help`,
`xshape <verb> --help`) and the [README](https://github.com/excelano/xshape/blob/main/README.md);
if anything here conflicts with them, they win. If a verb or flag described here is
missing from `xshape --help`, the installed copy predates it: upgrade with `sudo apt
install --only-upgrade xshape` (Debian/Ubuntu), `brew upgrade xshape` (macOS), or by
re-running the install one-liner from the README.

## The family, and the one rule that places xshape

Three tools act on the same delimited file; a fourth (xray) only looks. The split is by
*what changes*:

- **xled edits** \u{2014} rewrites *cell values* in place (strip currency, restore leading zeros,
  recase, compute a column). Leaves the grid's shape and the row set alone.
- **xshape reshapes** \u{2014} changes the grid's *shape* (axes, splits, merges). Leaves the
  values and the row set's membership alone.
- **xql queries** \u{2014} the row *set* (filter, aggregate, group, join, dedupe) via SQL/DuckDB.

The line that keeps xshape from becoming a worse xql: **it moves cells between the row and
column axes, and errors rather than aggregate when two would collide.** The moment a
reshape needs a `SUM`, a `first`, or a predicate, it has become a query \u{2014} hand it to xql or
DuckDB. xshape's own errors point you there by name.

## Running it

```sh
xshape <verb> [options] file.csv     # reshape; result to stdout (the preview)
\u{2026} | xshape <verb> [options]          # reshape piped stdin
xshape <verb> -i [options] file.csv  # write the result back to the file (like sed -i)
xshape <verb> -i.bak [options] f.csv # \u{2026}keeping the original as f.csv.bak
```

The reshaped table goes to **stdout by default** \u{2014} stdout *is* the preview, the whole new
grid in view before you commit. `-i`/`--in-place[=.bak]` writes it back to the file. Data
goes to stdout, advisory notices to stderr, so `xshape \u{2026} file.csv > out.csv` is always
safe. `-i` needs a file argument, not piped stdin.

Common flags (every verb): `-d/--delim <char>` (delimiter; defaults to `,`, or tab for
`.tsv`), `--no-header` (treat row 1 as data), `-i/--in-place[=SUFFIX]` (commit in place).

## Addressing \u{2014} the same dialect as xled

Columns are named the way xled names them, so a column you can point at in one tool you
point at identically here: a **letter** (`C`, `AF` \u{2014} bijective base-26, past Z too), or a
**bracketed header name** (`[first name]`, `[price (USD)]` \u{2014} exact, case-sensitive, `]]`
for a literal `]`). Verbs that take a *set* of columns (`unpivot --cols`, `merge --cols`)
also accept **ranges** (`E:K`, `[fy2020]:[fy2026]` \u{2014} inclusive, either direction) and
**comma lists** (`[id],D:E,[note]` \u{2014} order preserved). Names need a header row; letters do
not.

## The verbs (what each one does)

| Verb | Direction | Required flags | Changes row count? |
|---|---|---|---|
| `unpivot` | wide \u{2192} long | `--cols`, `--into KEY,VALUE` | yes (\u{d7} gathered cols) |
| `pivot` | long \u{2192} wide | `--names-from`, `--values-from` | yes (collapses to id tuples) |
| `split` | one col \u{2192} several | `--col`, `--sep` | no |
| `explode` | delimited cell \u{2192} rows | `--col`, `--sep` | yes (\u{d7} pieces) |
| `merge` | several cols \u{2192} one | `--cols`, `--sep`, `--into` | no |
| `transpose` | swap axes | \u{2014} | rows \u{2194} cols |

Three rules run through all of them, and they are what make xshape trustworthy:

1. **No value is ever altered.** `split`/`explode`/`merge` cut and join on the **literal
   `--sep`** you give \u{2014} spaces included \u{2014} and never trim. `--sep \"; \"` and `--sep \";\"` are
   different operations; pick the one that matches the data. Trimming or recasing a piece
   afterward is xled's job.
2. **`--sep` is required and never guessed.** Comma lives inside quoted values and slash
   lives inside dates, so there is no safe default \u{2014} you always state the separator.
3. **Nothing is dropped or combined by the tool's own choice.** `pivot` **errors on a
   collision** (two rows landing in one cell) instead of aggregating; `split` with a fixed
   `--into` **errors** rather than discard a piece that overflows. When you see one of these
   errors, the fix is upstream in xql (dedupe/aggregate) \u{2014} that is the boundary working.

## Worked recipes

```sh
# wide \u{2192} long: collapse a fiscal-year spread so xql can query it (the #1 use)
xshape unpivot --cols '[fy2020]:[fy2026]' --into fiscal_year,spend contracts.csv
#   contract_id, vendor, \u{2026}, fiscal_year, spend   \u{2190} one row per (contract \u{d7} year)

# explode a ;-delimited list cell into one row per value, other fields repeated
xshape explode --col '[application_names]' --sep '; ' contracts.csv
#   note the literal \"; \" \u{2014} split on \";\" would leave a leading space on each app

# split a slash-joined key into columns (auto-width: as many as the widest row needs)
xshape split --col '[contract_ids]' --sep '/' coverage.csv          # \u{2192} contract_ids_1, _2, _3
xshape split --col '[full_name]' --sep ', ' --into last,first people.csv

# long \u{2192} wide: spread a key column into headers, a value column fills the grid
xshape pivot --names-from '[fy]' --values-from '[spend]' long.csv
#   errors if a (contract, fy) pair repeats \u{2014} dedupe first with xql, don't ask xshape to sum

# merge columns into one, joined in the order you list them
xshape merge --cols '[last],[first]' --sep ', ' --into name people.csv

# transpose a table that arrived sideways (old first column becomes the new header)
xshape transpose metrics_by_month.csv

# commit in place, keeping a backup
xshape unpivot --cols 'E:K' --into month,value -i.bak wide_report.csv
```

## When to stop and switch

xshape only moves cells between axes. The moment the task needs something else:

- **Editing a value** \u{2014} strip the `$`, restore a leading zero, recase, trim, compute a
  derived column, fill merged-cell blanks \u{2192} **xled** (`skills/xled`). (Reshape first with
  xshape, then clean the new column with xled \u{2014} they compose.)
- **Answering a question about the rows** \u{2014} filter, aggregate, group, join, dedupe, or an
  **aggregating pivot** (`pivot \u{2026} SUM/COUNT`) \u{2192} **SQL/DuckDB** (**xql**, `skills/xql`).
  xshape's pivot refuses the collision that aggregation would resolve.
- **Understanding an unfamiliar file first** \u{2014} shape, types, hazards \u{2192} **xray**
  (`skills/xray`), the read-only profiler.

If you catch yourself wanting xshape to *change a value* or *drop/combine rows by a rule*,
that is the signal to hand off. xshape's job ends at the geometry.

See `reference.md` in this directory for every verb's exact flags and edge-case behavior,
the full column-addressing grammar, the tidyr/pandas/Miller translation table, and the
boundary rules in detail.
";

/// `reference.md`: every verb's flags and edge cases, and the addressing grammar.
pub const REFERENCE_MD: &'static str = "# xshape reference

Complete reference for the reshape verbs. The binary (`xshape <verb> --help`) and the
[README](https://github.com/excelano/xshape/blob/main/README.md) are authoritative; this
expands the edge cases and gives the tidyr/pandas/Miller translations. Any verb or flag
here that `xshape --help` doesn't list means the installed copy predates it.

## Invocation and flags

```sh
xshape <verb> [options] [FILE]      # FILE omitted, or `-`, \u{2192} read stdin
```

Common flags, accepted by every verb:

| Flag | Effect |
|---|---|
| `-d, --delim <CHAR>` | field delimiter; default `,`, or tab for a `.tsv` file |
| `--no-header` | treat row 1 as data, not a header (names then unavailable; use letters) |
| `-i, --in-place[=SUFFIX]` | write the result back to FILE; `=.bak` keeps the original as `FILE.bak` |
| `-h, --help` / `-V, --version` | standard |

Output: the reshaped table to **stdout** (the preview), advisory notices to **stderr**.
`-i` requires a real FILE, however stdin was spelled. A UTF-8 BOM is stripped on read;
non-UTF-8 input draws an encoding warning with an `iconv` hint (via encsniff).

Omitting FILE and writing `-` mean the same thing, so a caller that would rather be
explicit can be. They differ in one place: a bare `xshape <verb>` at a terminal, with
nothing piped in, is a usage error rather than a silent wait, while an explicit `-` blocks
the way `cat -` does \u{2014} it was asked for.

## Exit codes

`0` is success, including a reshape with nothing to do: no columns matched the address, one
row to transpose. The emitted table is the answer, so read it rather than the exit status.
`1` is bad input \u{2014} an unreadable file, a malformed table, an address that does not resolve.
`2` is a bad invocation \u{2014} an unknown flag, a missing argument, contradictory options.

## Column addressing

xshape's verbs are column-oriented. The grammar is the `xaddr` crate, which xled resolves
through as well, so an address means the same thing in both tools.

| Form | Resolves to | Notes |
|---|---|---|
| `C`, `AF` | one column by letter | bijective base-26: A=0, Z=25, AA=26; letters case-insensitive |
| `[first name]` | one column by header name | exact, **case-sensitive**; `]]` = a literal `]`, and a bare `[` inside a name is ordinary |
| `E:K`, `[a]:[d]` | an inclusive column range | either direction; expanded left\u{2192}right |
| `B:`, `:C` | an open-ended range | runs to the first or last column of this table |
| `[id],D:E` | a comma list of atoms and ranges | **order preserved, duplicates kept** |

Single-column flags (`--col`, `--names-from`, `--values-from`) take exactly one atom and
reject a range or list. Set flags (`--cols`) take the full grammar. A `[name]` against a
file with no header errors and says so.

Two limits are xshape's own rather than the grammar's. An address naming a row (`3`, `$`) or
a single cell (`B2`) is rejected: those are xled's half of the dialect, and a reshape verb
takes columns. And a column past the table's width **errors** rather than clamping to the
last one \u{2014} xled clamps, because reading less than you asked for is recoverable and a reshape
that quietly did less is not.

## The verbs

### `unpivot` \u{2014} wide \u{2192} long

```sh
xshape unpivot --cols <SPEC> [--into KEY,VALUE] [FILE]
```

Gathers the columns in `--cols` into two new columns: a **key** column holding each
gathered column's *name*, and a **value** column holding its cell. Every other column is an
identifier, repeated down the block. Output rows = input rows \u{d7} gathered columns.

- `--into` names the two new columns; default `name,value`. Both parts required if given.
- Gathered columns come out in **spec order** (`--cols K,E` gathers K before E).
- **Requires a header** \u{2014} the key values *are* the gathered column names. Under
  `--no-header` there are no names to gather into, so it errors (promote a header first
  with xled).
- A column named twice in `--cols` errors (it would duplicate the block).

### `pivot` \u{2014} long \u{2192} wide

```sh
xshape pivot --names-from <COL> --values-from <COL> [FILE]
```

The inverse of unpivot. Distinct values of `--names-from` become new column headers;
`--values-from` fills the grid; every other column identifies a row. New headers and rows
appear in **first-seen order**. A combination that never occurs is left **empty**, not
invented.

- **Never aggregates.** If two source rows share an identifier tuple *and* a name \u{2014} they
  would land in one cell \u{2014} pivot **errors** (`collision:`) and names xql/DuckDB. There is
  no `--on-collision` escape hatch: picking `first`/`last` would drop a cell, and summing
  is a query. Dedupe or aggregate upstream, then pivot the clean result.
- `--names-from` and `--values-from` must differ.

### `split` \u{2014} one column \u{2192} several

```sh
xshape split --col <COL> --sep <SEP> [--into A,B,C] [FILE]
```

Splits `--col` on the **literal** `--sep`; the pieces become new columns spliced in where
`--col` was, and the original column is removed.

- Output width = `--into`'s length if given, else the **widest split** across all rows.
  Rows with fewer pieces pad with `\"\"`.
- New column names = `--into`, else `<col>_1`, `<col>_2`, \u{2026} (`<col>` is the header name, or
  the letter if headerless).
- With a fixed `--into`, a row that splits into **more** pieces than there are names
  **errors** (naming the row) rather than discard the overflow \u{2014} no value is dropped.
- Does not trim: `--sep \";\"` on `\"a; b\"` yields `\"a\"` and `\" b\"`. Use `--sep \"; \"`, or
  clean afterward with xled.

### `explode` \u{2014} a delimited cell \u{2192} multiple rows

```sh
xshape explode --col <COL> --sep <SEP> [FILE]
```

Splits `--col` on the literal `--sep` and emits the row **once per piece**, every other
field repeated. The one verb that changes row count \u{2014} but it invents nothing and applies no
predicate, so it is pure reshape (a cell holding `\"a; b; c\"` was always three values glued
together).

- A cell with no separator yields **one** row (itself); an empty cell yields **one** row
  with an empty value. Rows are never dropped, so output rows = \u{3a3} (pieces per row).
- Same literal-`--sep`, no-trim rule as `split`.

### `merge` \u{2014} several columns \u{2192} one

```sh
xshape merge --cols <SPEC> --sep <SEP> --into <NAME> [FILE]
```

Joins the values of `--cols` with the literal `--sep`, in **spec order**, into a single
column named `--into`, spliced in at the **leftmost** source column; the other source
columns are removed. The inverse of `split`.

- Needs at least two columns.
- Empty values join too: `[\"a\", \"\"]` with `--sep \";\"` \u{2192} `\"a;\"`. (Skip-empty is a value
  decision \u{2014} clean with xled if you need it.)
- `--cols [last],[first]` joins last then first; order follows the spec.

### `transpose` \u{2014} swap the axes

```sh
xshape transpose [FILE]
```

Transposes the grid as a matrix, header row included. The **old first column becomes the
new header**, and the old header becomes the new first column. Ragged rows are padded to
the table width first. Under `--no-header` the whole grid transposes with no header overlay.

## Translation table \u{2014} tidyr / pandas / Miller \u{2192} xshape

The subcommand names are plain English, but the semantics are tidyr's. If you know one of
these, this is the mapping:

| Operation | tidyr | pandas | Miller (`mlr`) | xshape |
|---|---|---|---|---|
| wide \u{2192} long | `pivot_longer(cols, names_to, values_to)` | `melt(id_vars, value_vars, var_name, value_name)` | `reshape --long -i \u{2026} -o k,v` | `unpivot --cols \u{2026} --into k,v` |
| long \u{2192} wide | `pivot_wider(names_from, values_from)` | `pivot(index, columns, values)` | `reshape --wide -s k,v` | `pivot --names-from \u{2026} --values-from \u{2026}` |
| one col \u{2192} many | `separate(col, into, sep)` | `str.split(sep, expand=True)` | `nest --explode --values --across-fields` | `split --col \u{2026} --sep \u{2026} [--into \u{2026}]` |
| cell \u{2192} rows | `separate_rows(col, sep)` | `assign(...).explode(col)` | `nest --explode --values --across-records` | `explode --col \u{2026} --sep \u{2026}` |
| many cols \u{2192} one | `unite(into, cols, sep)` | `df[cols].agg(sep.join)` | `merge-fields` | `merge --cols \u{2026} --sep \u{2026} --into \u{2026}` |
| swap axes | `t()` (base R) | `df.T` | `mlr \u{2026} reshape`/`--transpose` | `transpose` |

Two differences from all of them: xshape **requires an explicit separator** (no default, no
inference), and its **pivot refuses to aggregate** \u{2014} where pandas silently takes a mean on
duplicate index/column pairs, xshape errors.

## The three boundary rules (why xshape is trustworthy)

1. **Geometry only.** Every input cell reappears in the output unchanged. xshape never
   edits, casts, trims, or recases a value \u{2014} that is xled. It only changes which axis holds
   the cell.
2. **Explicit separators.** `--sep` is required for `split`/`explode`/`merge` and is a
   literal string (spaces significant). Comma appears inside quoted values and slash inside
   dates, so there is no safe default to guess.
3. **No silent drop or combine.** `pivot` errors on a collision instead of aggregating;
   `split` errors rather than discard an overflow piece. Both errors mean the same thing:
   the next step is a query, and it belongs to xql/DuckDB.

## What xshape does not do

Filter rows by predicate, aggregate, group, join, dedupe, sort \u{2192} **xql** / DuckDB. Edit
cell values (currency, case, padding, computed columns, blank-fill) \u{2192} **xled**. Profile an
unfamiliar file \u{2192} **xray**. Convert formats (`.xlsx`/JSON \u{2194} CSV) \u{2192} office-convert / ditto.
An aggregating pivot (`pivot \u{2026} SUM`) is a query, not a reshape \u{2014} xshape errors on the
collision that would require it.
";

} // verus!
