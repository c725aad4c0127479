# patch-crate

Make and keep fixes to crate dependencies: a crate listed under
`[package.metadata.patch] crates` is copied to `target/patch/<name>-<version>`,
edited there, and `cargo patch-crate <name>` records the edit as
`patches/<name>+<version>.patch`, which later runs apply again.

- `src/` is the verified library (Verus): naming of package directories and
  patch files (`naming`), paths as text, joined and split by `std::path` and camino (`paths`), the metadata table
  (`metadata`), the workspace and its folders (`workspace`), the bookkeeping of
  an application run (`session`), the decisions of a run (`plan`) and the
  errors (`error`).
- `app/` is the command-line tool around it: `cargo metadata`, the file
  system, git, and progress messages.
- `tests/` runs the library on concrete values.
