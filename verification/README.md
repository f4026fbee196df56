# midenup

The decisions of a toolchain installer, written and proved in Verus: what the artifacts of a
component resolve to, which components an intent selects, what an installation plan consists of and
which key identifies it, how a plan is carried out, and what an update has to do.

- `src/` is the library. It decides; it performs no input or output.
- `tests/` runs it.
- `app/` is what surrounds it: the file system, child processes, the terminal and JSON documents.

## Modules

| Module | What it decides |
|---|---|
| `artifact` | archive formats, digests, artifacts as documents, resolution for a target |
| `manifest` | components and channels, the first schema and its conversion |
| `resolve` | the components that an intent selects, in dependency order |
| `plan` | pinned authorities, destinations, the canonical encoding and the plan key, the plan |
| `install` | archives, Cargo builds, staging, execution, verification |
| `update` | what changed, what is acquired anew, what is only recorded, where networks move |
| `state` | what is recorded of installations |
| `text`, `path`, `value`, `sorted`, `order`, `version`, `exec`, `profile` | what these are made of |

Contracts are stated over mathematical models: every type has a `...Facts` counterpart that its
`deep_view` gives, and every function says which spec function of those facts it computes. What holds
of several functions together stands in public proof functions, most of them in the `*_laws` modules.

Some outside functions are taken at their word: SHA-256 of `sha2`, reading a gzipped tar archive with
`flate2` and `tar`, parsing, writing and ordering versions with `semver`, and of the standard library
appending a character to a text. Each stands behind one declaration whose comment says what is claimed
of it.
