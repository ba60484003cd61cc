# longmemcode

LongMemCode is a benchmark for the memory layer of coding agents. A memory
system is wrapped in an *adapter* that answers structural queries about a code
base (look a symbol up, list its callers, the members of a class, the symbols
of a file, ...) over a JSON-over-stdio protocol. The *runner* feeds it
scenarios, scores every answer with deterministic arithmetic, and aggregates a
report. The *scenario generator* derives the scenarios from a code graph.

This crate is the verified core of those tools, written in Verus.

## Layout

`src/` — the library, every function with a contract proved by Verus:

- `text`, `scan`, `cli` — character helpers, line and number scanning, and
  command-line flags.
- `protocol` — the query shapes of the adapter protocol.
- `scoring` — the four scoring rules, as exact fractions of counts, with the
  laws they obey (scores lie in `[0, 1]`, set rules ignore order and repeats,
  coverage never drops when more is returned, ...).
- `stats` — token estimates, the scenario-file fingerprint, sorting and
  latency percentiles.
- `report` — per-scenario outcomes, grouping by category and gold source,
  and the run summary.
- `grep` — the grep baseline adapter's decisions: which search to run for a
  query and how the search output becomes an answer.
- `argos` — the graph adapter's decisions: which graph lookup answers a
  query and how the found symbols become the answer.
- `corpus`, `ranking`, `scenario`, `generators`, `taxonomy` — scenario
  generation: a plain-value model of the code graph, ranking by edge count,
  the numbering of scenarios, one generator per sub-type, and the category
  budgets.

`tests/` — tests of the library on concrete values.

`app/` — the programs around the library: process plumbing, files, JSON,
the code-graph bundle reader, and the floating-point figures of the report.
