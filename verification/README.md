# vhdl_region

The declarative region of a VHDL semantic analysis, verified with Verus:
what a scope declares, what use clauses make potentially visible in it, how
a name is looked up, and which declarations are reported as errors
(duplicates, misplaced deferred constants, protected types without a body).

Layout:

- `src/ast.rs`: symbols, designators, source positions and the few syntax
  nodes that the region reads.
- `src/diagnostic.rs`: the diagnostics that the region reports. A message is
  a value (`Message`) that names the designator it is about.
- `src/fnv_maps.rs`: the FNV-hashed maps (`fnv::FnvHashMap`) that a region
  keeps, and the contracts of the map operations it uses.
- `src/region.rs`: named entities, visible declarations, visibility and the
  region itself, each operation with its contract.
- `src/laws.rs`: proved properties that span several operations.
- `app/lib.rs`: the message texts, given a way to name interned symbols.
