# clockpin

Keep every pinned dependency in a repository in step with upstream. The
command detects the dependency ecosystems a repository uses (uv, npm, cargo,
Dockerfiles, GitHub Actions, pre-commit) and updates each one, delegating to
the ecosystem's own tool where there is one and rewriting pins itself for
Actions workflows and Dockerfiles.

The library under `src/` is verified with Verus. Its functions state their
results in their contracts, and the laws that relate functions are public
proof functions (`law_*`). What comes from outside enters the contracts in
three ways. A lookup or request that the library makes itself (a registry
URL, a `gh api` query, a tool on PATH) is a closure handed in by the caller;
the contract names the exact argument of each call and says the result is
what the library makes of whatever the closure returned for it. Work that a
run hands back to its driver (a command, a file read or write) is a step of
the updater's state machine, whose step function takes the answer as an
event. Where an answer is a function of its input (the TOML and JSON
parsers, Unicode character classes, lowercasing), the contracts speak of it
by name.

- `text`, `scan`: characters, trimming, searching, the character classes the
  pin grammars use.
- `version`: version keys and their order, name normalization, pin granularity
  (`desired_tag`), cap relaxation.
- `registry`: registry URLs (Docker Hub, GHCR, PyPI, npm, crates.io), the
  size cap and parse of an answer, and what the answers mean (newest tag on a
  pin's line, digests, latest versions).
- `updaters`: one updater per ecosystem. The hand-rolled rewriters
  (`rewrite_uses`, `rewrite_from`, `bump_minimums`) are specified by grammars
  of the pins they rewrite; each updater's run is a state machine that asks for
  outside work (a tool, a command, a file) and answers with its next step.
- `cli`, `context`, `session`, `report`: options, run context, which
  ecosystems a run visits, and the text of the screen report and JSON log.

`app/` holds the command itself: argument parsing, processes, files, HTTP,
and the loops that answer the updaters' steps.
