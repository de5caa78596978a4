# knot

Knot keeps directory trees in step across "knots": a source folder and any
number of remote folders, local or reached over SSH.

This crate holds Knot's logic as a Verus library. Every function has a
contract that Verus proves, except the few small wrappers (marked
`external_body`) that call `ignore`, `base64`, `parse-size`, `xxhash-rust`,
`indicatif` and `std`'s lowercase mapping and path formatting, whose
contracts are taken on trust. `parse-size` overflows an integer of its own
on a number whose digits read exactly `u64::MAX` followed by a digit of 5
or more; such texts are kept from it (`size_text_overflows` tells them
apart). The modules:

- `configuration`: the settings of a workspace, its ignore-pattern file
  (written and read back unchanged), knot types and behaviors;
- `knot`: files, credentials and connection strings, the comparison of two
  crawls (unique files and conflicts on either side), the crawl's decisions
  and its cache of hashes, the shell commands sent to a remote knot, the
  framing of batch streams, the directories created for a batch, and the
  steps of a piecewise copy;
- `cli`: the dashboard (tree of a comparison, key handling, scrolling), the
  interactive conflict resolver, the comparison view and its table form,
  the configuration report, the questions of `init` and `modify`, and the
  progress graph;
- `connection`: the decisions around an SSH session;
- `paths`, `text`: path components and string helpers the rest is stated in.

`app/` is the command-line program around the library: argument parsing,
files (TOML configuration, the structure cache in rkyv), prompts, terminal
output (the configuration as a report, TOML or JSON; a crawl as JSON or as
Base64 rkyv bytes, optionally zstd-compressed) and shell completions.
The program does not synchronise folders yet, so the interactive resolver,
the comparison view, the dashboard, the batch framing and the folder
watcher's step are exercised by `tests/` only. `tests/` runs the library on
examples.
