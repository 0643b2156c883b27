# underclass

A proxy that pools several Codex and Copilot subscriptions behind one endpoint:
it keeps track of the health and quota of each account, keeps a session on one
account, fails over to another, redeems banked quota resets, and counts tokens.

The decisions are a verified library. What touches the network, the disk or the
terminal is ordinary Rust around it.

## Layout

- `src/` is the library. Every function states what it returns, and Verus proves
  it. Facts that span functions stand beside them as `law_...` proof functions.
  - `pool`, `pool_laws`, `sticky`, `table`: accounts, sessions and selection.
  - `proxy`, `provider`, `codex`, `copilot`, `health`, `headers`: a request on its
    way through the pool, and the two backends.
  - `resets`, `tokens`, `flows`: quota resets, credentials and sign-ins.
  - `usage`, `json`: token counts in answers, and the documents they stand in.
  - `store`, `statements`: what is stored, and the statements that store it.
  - `monitor`, `ui`, `top`, `logging`: what is shown.
  - `config`, `startup`, `models`, `text`, `clock`: settings and common types.
- `app/` is the program: HTTP, SQLite, the terminal, and the JSON form of the
  library's types. It performs what the library decides and reports back.
- `tests/` runs the library on concrete values, with the crates it calls.

## What is not proved

The library calls a few crates (`serde_json`, `http`, `lru`, `chrono`, `uuid`,
`httpdate`, and the URL type of `reqwest`). Each call stands behind one small
function marked `external_body`, whose comment says what is taken for granted.
Three functions are specified where they stand, by `assume_specification`:
`str::eq` and `String::push` of the standard library, and `Clone` of a
`serde_json` number.

Collections that are kept as vectors with an invariant: the accounts of the pool,
the catalogs, and the string-keyed `Table`. The cache of sessions is the one of
the `lru` crate.

What the statements in `statements` and `store` do is up to SQLite; the tests run
them.

Floating-point numbers (fractional retry headers, percentages) are read in `app/`
and handed over as integers or text.
