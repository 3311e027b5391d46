# cnode_lib

A package manager for the npm registry (`cnpm`, with `cnpx` and `cnode`),
whose logic is a library verified with Verus.

- `src/` is the verified library: the manifest and registry data model,
  version resolution (`^`, `~`, `>=`, `x` wildcards, `latest`), dependency
  resolution and flattening, the tarball cache and integrity checks, the
  configuration settings, and the rules of every command (what `install`
  resolves and records, what `update` and `uninstall` touch, how `list`
  draws the tree, how `run` finds a script, ...). Maps keyed by package
  name are `StringMap`s, which keep their keys distinct and in
  first-insertion order. Paths that come from the system (the home and
  cache directories, the `--cache-dir` argument) are held as the bytes the
  platform gives, so that no directory name is altered.
- `app/` is the program around it: argument parsing, HTTP requests, the
  file system, JSON and TOML documents, the download progress bar and the
  process spawning of `run`, `exec` and `cnode`.
- `tests/` exercises the library on concrete values.
