# axiom_core

The core of Axiom, a study tool built around knowledge packages of concepts,
objectives, worked examples and parameterised problem families.

- `src/` is the library, verified with Verus: parsing and validating
  knowledge packages (frontmatter, section bodies, identifiers, constraint
  expressions, provenance, relationships and reference checks), problem
  generation (the seeded generator, the order in which parameters are
  resolved, template substitution), module manifests and the module registry,
  and the decisions of the desktop commands (sessions, goals, search, the
  sample workspace). Each public function states its result in its contract;
  the public proof functions state the laws that relate several of them.
- `app/` is the unverified shell around it: file and database I/O, TOML and
  JSON decoding, the floating-point parts of sampling and answer checking,
  and the asynchronous module providers.
- `tests/` runs the library on concrete inputs.
