# suitecase

A structured test toolkit whose decision-making is verified with Verus.

- `src/suite`: case selection (filters, glob and regular-expression
  patterns, dependency closure and a dependency-respecting order), the run
  planner that decides each lifecycle step from how earlier cases ended, and
  the result lines a run prints.
- `src/assertions`: named checks that return the failure message instead of
  panicking (equality, collections and multisets, options and results,
  ordering, errors, durations, identity, filesystem entries).
- `src/mock`: expectations, call matching, call counting and verification
  for test doubles over plain argument values.
- `src/report`: reading `cargo test` output (case lines, libtest lines,
  panic reports) and rendering the terminal or GitHub summary, plus the
  argument handling of `cargo suitecase`.
- `src/text`: character-level helpers shared by the above.
- `app/`: the runtime around the library: the suite driver that runs hooks
  and bodies and catches panics, panicking assertion wrappers, a shared mock
  object, and the two command-line tools.

Contracts are stated over `Seq<char>` views and spec functions; laws that
span several calls (the run planner's abort and skip rules, mock call
counts, multiset comparisons, reading back printed result lines) are public
proof functions.
