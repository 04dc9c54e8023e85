# bayes_star

A first-order logic front end for Bayesian belief networks, verified with
Verus. Propositions are sequences of roles over typed entities; implications
link premise patterns to conclusion patterns through role maps; the
proposition graph of a target is grown backward through the implications.
The library decides every key and value that goes to the Redis store as a
`StoreCommand`; the program in `app/` runs those commands, keeps the JSON
records, and does the floating-point training.

- `src/` — the verified library: objects and their search strings, pattern
  search, the backward proposition graph, the store layout of a namespace,
  the scenarios, the explorer's HTML, option reading.
- `tests/` — tests on concrete values.
- `app/` — the program: command-line options, the Redis connection, JSON
  records, the exponential model.
