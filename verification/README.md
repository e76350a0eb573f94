# rusthouse

An in-memory analytical SQL engine whose behaviour is stated in contracts and proved with Verus.

The library under `src/` holds the engine (`engine`, `planning`, `binding`, `eval`, `selecting`,
`aggregates`, `ordering`), its storage (`storage`, `catalog`, `columnar`), text formats
(`format`, `formats`, `json_each_row`), HTTP exchanges (`http`), a lexer and scalar expressions
(`lexer`, `expression`), column executors and kernels (`executor`, `execution`, `kernels`,
`join`, `grouping`), and the partitions of groupings that do not fit in memory (`group_spill`).

Contracts speak of mathematical models: a `Value` is seen as a `Datum`, a table as a sequence of
rows, an error as its content. What relates several functions stands in `guarantees` modules and
next to the functions concerned, as public proof functions.

Floating-point values are held as bit patterns. Arithmetic on them is asked of a function that the
caller supplies; `app/floats.rs` supplies the machine's. The time that the operators of a plan take
is read off a clock that the caller supplies, too. SQL text is parsed by the `sqlparser`
crate, whose syntax trees `sql` hands over field by field; texts on which that parser would not
return are told by their tokens in `sql_tokens` and refused.

`app/` reads and writes: files, sockets and clocks around the library.
