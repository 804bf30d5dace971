# pgsafe

A static safety linter for PostgreSQL DDL migrations, verified with [Verus](https://github.com/verus-lang/verus).

pgsafe reads migrations, flags the statements that lock tables, rewrite them or lose data, and
offers machine-applicable fixes where a change is mechanical.

## Layout

- `src/` — the library. Every executable function carries a contract over the spec functions next
  to it, and Verus proves it. The modules named `*_laws`, and `fix_offers`, state what holds across
  functions. `outside` holds the calls into other crates whose contracts are taken on faith.
- `tests/` — the library run on concrete inputs.
- `app/` — the binary around the library: command line, files, `git`, the PostgreSQL parser, JSON
  and the language-server transport.

## What is proved

- The findings of an input are exactly those of the enabled rules, in source order, with config
  overrides, the exemption of freshly created tables and inline suppression applied, and those on
  directives that suppress nothing.
- A resolved fix is well-formed, fixes are composed whole or not at all, and the fixpoint loop
  never keeps a text that stops parsing or gains an error.
- Fixes that fit a text apply together, each in place, whatever order they are offered in.
- A unified diff matches the text it was made for and patches it to the fixed one; for the diff of
  single edits, where none of them takes out a newline.
- Rendering, gating, exit codes, config compilation and discovery, input selection and the
  language server's document state do what their contracts say.

## Inline suppression

    -- pgsafe:ignore <rule-id> <reason>

on a statement's own line or the lines above it marks that rule's findings on the statement as
suppressed. They are still reported, and never fail the run. A directive that names no known rule,
gives no reason or has nothing to suppress is itself reported, as `suppression-unknown-rule`,
`suppression-missing-reason` or `suppression-unused`.
