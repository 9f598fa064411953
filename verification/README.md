# slintscanners

Zero-literal architecture scanner for [Slint](https://slint.dev/) UI files,
written in Verus: the scanning logic is a verified library whose contracts
say, for every input, which issues each check reports.

## Checks

| Module | Rule |
|---|---|
| `checks::tokens` | no hardcoded colors, px, %, ms/s, integers, floats in components |
| `checks::strings` | no hardcoded string property values |
| `checks::structure` | one component per file |
| `checks::events` | no logic in callbacks, at most 3 lines, no root state mutations |
| `checks::mother_child` | no `in-out property` in children, no sibling imports in `views/` |
| `checks::string_states` | no stringly-typed state comparisons |
| `checks::architecture` | all callbacks delegate to a single gateway object |

Hardcoded strings are reported as warnings, everything else as errors.
Files in `globals/`, `tokens/`, `theme/` and `state/` are exempt from the
literal checks (tokens, strings, string states); `GridLayout` `row`/`col`,
`@image-url(...)` and `@tr(...)` are exempt from the token check.

## Layout

- `src/` — the verified library: text utilities over UTF-8 bytes (`text`),
  regular-expression searches (`pattern`; a scan compiles each pattern once,
  in the `Searchers` of each check), issues (`issue`), file context and
  callback extraction (`context`), configuration (`config`), file selection
  (`walker`), the checks (`checks`), whole-file and whole-project scans
  (`lib.rs`), and proofs of properties that span them (`laws`, `positions`).
- `app/` — the command-line scanner and the file-system side: reading
  `proj/rulestools.toml`, walking the project, reading files, printing.
- `tests/` — tests of the library on concrete inputs.
