# zc

Diff the public API and the dependencies of a Rust workspace's crates between two git refs,
and flag what breaks downstream consumers.

The project has two parts:

- `src/` is the library, written in Verus. It holds everything the tool decides and
  prints: command-line parsing, which refs are compared, parsing `cargo public-api` diffs,
  `Cargo.lock` files, `cargo metadata` output and rustdoc JSON, dependency classification,
  grouping of API items, the terminal report, the changelog draft, the machine-readable
  report's derived fields, the GitHub annotations, the caches' formats and keys, and the
  exit-code policy. Every function states its result in its contract, and the proof
  functions named `law_*` state properties that span functions (the caches give back what
  was written, the transitive diff never lists a direct dependency, a dependency is
  classified by its strongest use, the exit code follows the policy).
- `app/` is the program around it: it runs git, cargo, rustdoc and cargo-public-api,
  reads and writes files, parses JSON with `serde_json`, prints the library's lines, and
  draws the progress spinner.

Calls into `regex`, `sha1`, `hex` and `serde_json` that the library makes go through small
trusted wrappers whose contracts name what the crate computes.
