# XcodeLspGen

Scans for Xcode projects and workspaces, lets you pick one and a scheme of it, and runs
`xcode-build-server config` for the pair, which writes `buildServer.json`.

- `src/` is the library, in Verus. It holds every decision: what a scan offers, what a
  listing of schemes says, what the screens show, what keys do, and what comes next. It
  takes what happened as plain values and says what to do.
- `app/` is the program round it: the command line, the terminal, the directory walk and
  the calls of the tools.
- `tests/` runs the library on concrete values.

`history.rs` and `program.rs` hold what is proved of whole runs: no tool is run before
both were found, none is run twice, programs get only what was offered, success means that the configuration
went well, and a terminal that was entered is given back.
