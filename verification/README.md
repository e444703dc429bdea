# nanoaios

A minimal AIOS kernel whose core is verified with Verus.

- `src/` is the verified library: configuration defaults and locations
  (`config`), session ids, session files and bounded session history
  (`memory`), the sorted tool registry and HTTP call planning (`tool`), provider
  dispatch (`runtime`), turn accounting (`kernel`), the precedence of
  environment, `.env` entries, configuration file and defaults (`settings`), and
  the text and path operations they share (`text`).
- `app/` is the command line program around it: argument parsing, TOML and JSON
  files, the clock, the HTTP API and outgoing HTTP requests.
- `tests/` exercises the library on concrete values.

Paths are held as the raw bytes of Unix paths, so a home or configuration
directory that is not UTF-8 is kept exactly. The tool registry keeps its
manifests in a vector sorted by name, one per name: vstd's `HashMap`
specification needs a key model that vstd does not give for `String` keys, and
a sorted vector also gives the listing its order.
