# tangram

Package specifiers, version solving and lockfiles for Tangram packages, with the smaller
pieces of logic around them (module URLs, the language server's protocol handling, the
server's routes, the installer's decisions), written in Verus and verified.

- `src/` is the verified library. The version solver is a state machine
  (`solve.rs`, modelled in `model.rs`) that its driver steps and answers with what the
  package registry says; `scan.rs` seeds it with a package and its path dependencies,
  `locking.rs` turns a solution into a lockfile, `reading.rs` and `keyed.rs` read
  lockfiles back, and `report.rs` writes why solving failed. `laws.rs`,
  `references.rs` and `soundness.rs` hold properties that span several operations: that
  every step keeps the solver's indices valid, its choices sound and its solution closed. Around the compiler,
  `module_url.rs`, `import.rs`, `loading.rs`, `targets.rs`, `documents.rs`, `edits.rs`
  and `workspace.rs` hold what is decided about modules and documents.
- `app/` holds what the library leaves to its callers: the loop that answers the solver's
  requests, lockfiles as JSON, the language server's input, conversions to `lsp-types`
  and `url`, and reading packages from disk.
- `tests/` runs the library on concrete inputs.
