# identifier_forest

Verified storage structures for RDF datasets whose terms have been mapped to
integer identifiers: a dataset is a set of quads of identifiers (subject,
predicate, object, graph name), kept in one or more ordered trees so that a
request with some positions set and others left as wildcards can be answered
by scanning a range of the best suited tree.

Every function under `src/` is checked by Verus against its contract, but
for two wrappers around the standard library whose contracts are trusted:
`tree::btree_keys_between` (`BTreeSet::range`) and `sortable::sort_quads`
(`slice::sort_unstable_by`).

- `identifier`, `quad`, `order`: identifiers, quads, patterns, and the
  orders (fixed at compile time) in which a tree sorts the four positions.
- `tree`, `dynamic`, `forest`, `compile_time_forest`: trees that may be built
  lazily, and forests of them that pick the best tree for each request.
- `block_order`, `block_forest`, `treed_dataset`: the same ideas with orders
  chosen at run time.
- `kind_order`, `sub_tree`: trees keyed by term kinds, built on demand.
- `sortable`: a dataset kept in a vector, which can be sorted so that one
  kind of request is answered by a binary search.
- `full_index`: a dataset that indexes every pattern of one, two and three
  positions.
- `lattice`: a dataset whose indexes form a lattice, each built on demand
  from the index above it.
- `animals`, `matchable`: small exported values.

`tests/` holds the tests, and `app/` the WebAssembly bindings.
