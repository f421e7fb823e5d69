# rnp-src

Compiles librnp and its dependencies (Botan, json-c, zlib, bzip2) from source, for use
by a build script.

The library plans a build and takes the decisions that come up while it is carried out.
It is written in Verus, and every function in it is proved against its contract. The
contracts of the few functions in `src/outside.rs`, which call other crates and the
standard library, are relied on without proof.

- `src/builder.rs` plans a whole build. `botan.rs`, `cmake.rs`, `bzip2.rs` and
  `librnp.rs` plan its parts, and `plan.rs` says what a plan is and how it is walked
  through. `laws.rs` holds what is proved of every build.
- `src/includes.rs`, `aliases.rs` and `tree.rs` decide over files: includes to add to
  C++ sources, library names, trees to copy.
- `src/download.rs` and `process.rs` decide over downloads and commands.
- `src/text.rs` and `words.rs` search and split text.
- `app/` carries plans out: it runs programs, downloads and writes files.
- `tests/` runs the library on concrete values.
