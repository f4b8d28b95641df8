# chilled-crates

A caching proxy for the crates.io sparse index and crate downloads, with a
cooldown: index versions newer than a chosen window are hidden, so that a
freshly published (possibly malicious) release is withheld until there has been
time to detect and yank it.

- `src/` is the library: the age-gating filter, the caches, the configuration
  rules and the course of every request, verified with Verus.
- `app/` is the program around it: command line, HTTP server, HTTP client and
  the files of the on-disk cache.
- `tests/` runs the library on concrete values.

The library performs no I/O. A request is a sequence of steps: a function of
`routes` says which operation comes next (read a file, ask the upstream, serve a
response), the program performs it, and hands the outcome to the function that
decides what follows.

## Layout of the library

| Module | Contents |
| --- | --- |
| `cooldown` | index filter, publication times, durations, cutoffs |
| `lines`, `text` | lines and characters of a text, searching, splitting, numbers |
| `calendar`, `time` | civil dates, durations, timestamps, the clock |
| `valid` | crate names and versions |
| `http` | responses, HTTP dates, size-capped bodies |
| `cache` | index entries, crate versions, metadata cache, memo of filtered bodies |
| `address`, `config` | URLs, configuration, parsing of options |
| `routes` | index, download, metrics and status routes |

## What is proved

Every function has a contract over mathematical models of its arguments. Beyond
those, the modules prove laws such as these:

- a line of an index body survives the filter if and only if it is not too new,
  and filtering twice is filtering once at the earlier cutoff;
- every version that may be downloaded under restriction is listed in the filtered index;
- the entity tag of a filtered entry gives back the upstream's tag and the
  window it was issued for;
- a `304` is only sent to a client whose copy was filtered at the window that is
  in force;
- HTTP dates, index paths and download paths read back as what was written.

Calls into the standard library and the crates `bytes` and `url` that Verus
cannot see through stand behind small trusted functions, each with a comment
that says what is taken for granted.
