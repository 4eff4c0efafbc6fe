# axiomatic

A first-order rewriting kernel for equational proofs, verified with Verus.

`src/` is the verified library:

- `fol`, `unify`, `parser`: terms and equalities, Robinson unification and one-step
  rewriting, and the conjecture parser.
- `eval`: exact Gaussian-rational arithmetic, evaluation of ground terms, the polynomial
  root search and the counterexample search.
- `kernel`, `axioms`: proof states, tactics and their application, the successor states of
  a search node, proof pruning, and the rule libraries of each domain.
- `lean`, `lean_export`, `induction`, `lean_runner`: export of proofs to Lean 4, proofs by
  induction, and the reading of the Lean compiler's verdict.
- `inventor`, `decomposer`, `curriculum`, `trainer`, `model`, `prompt`, `policy`,
  `database`, `vectordb`, `graph`, `universe`, `embedding`, `supervisor`: conjecture
  invention, subgoal generation, the difficulty curriculum, the knowledge base of proven
  lemmas and the graph of mathematical entities.
- `laws`: properties that hold across operations, stated and proved as proof functions.

`app/` is the command-line program around the library: the Monte Carlo tree search and the
scoring policy (floating point), and running the Lean compiler (processes and files).

`tests/` holds the tests of the library.
