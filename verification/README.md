# path_rs

Cross-platform path mechanics with machine-checked contracts: expansion of
`~`, `%VAR%` and `$VAR`, lexical normalization, resolution and containment,
identity keys, command-line and executable matching, WSL translation, and the
decision logic of directory listing, glob search, directory discovery and
discovery caching.

## Layout

- `src/` — the library, verified with Verus. Paths are handled as text in
  Unix syntax. Anything that depends on the process (environment variables,
  the current directory, the filesystem) is passed in as a value: an
  `Environment` snapshot, a current-directory reading, the inspection of a
  directory, the items of a walk, or the canonical form of a path whose
  identity key resolves symlinks. The `dirs`, `globset`, `dunce` and
  `unicode-normalization` crates are called from the library behind small
  trusted functions whose contracts are stated in their doc comments.
- `app/` — ordinary Rust around the library: reading the environment and the
  current directory, walking directories with `walkdir`, probing metadata,
  the JSON cache file (`serde_json`), async entry points (`tokio`) and error
  types with `Display` (`thiserror`).
- `tests/` — tests of the library's behaviour on concrete values.

Times are nanoseconds since the Unix epoch; time-to-live values are
nanoseconds.

The library targets non-Windows hosts. In particular, the contract of
`simplify_for_display` (that `dunce::simplified` hands the path back
unchanged) holds only there: on a Windows target `dunce` strips verbatim
prefixes, and the contract would be false.
