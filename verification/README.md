# inkentry-cli

The rules behind the `inkentry` command line: project memory and how it is kept
in step with a team server, search over code and memory, the local server
daemon, and what each command says at its end.

The library (`src/`) decides and computes. Its functions take plain values and
return plain values: what to do next, what to write, what to print. Each carries
a contract that Verus proves, stated over spec functions that say directly what
a result is. What holds across functions is stated by the public proof functions
whose names begin with `law_`.

- `text`, `textmap`, `order`, `time`, `ui`: strings, maps, stable orders, times
  and lines of output
- `config`, `args`: settings and arguments as plain values
- `memory`: recording, listing, showing, archiving, replacing, reconciling,
  reindexing and anchoring entries; `memory::sync` pushes and pulls them
- `search`, `status`, `metrics`, `plumbing`, `server`, `org`, `misc`, `removed`,
  `notice`: the commands

Times are read and written by `chrono`, patterns matched by `regex`, and JSON
read by `serde_json`, each behind a small wrapper whose contract says what is
relied on.

`app/` is ordinary Rust around the library: arguments, files, processes, git and
the network. It performs what the library asks for and hands back what came of
it. `tests/` run the library on concrete values.
