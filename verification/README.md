# reel

A stateful HTTP client for the command line: like `curl`, but the request
being built, the request/response history, a cookie jar and session
variables persist between invocations in the same terminal.

The library under `src/` is verified with Verus; `app/` is the program
around it.

## Layout

- `src/text.rs` — character-level string operations (trimming, searching,
  case folding, decimal numbers) specified over `Seq<char>`.
- `src/model/` — headers and session variables, requests, responses and the
  session state; `cookies.rs` parses `Set-Cookie`, keeps the jar and builds
  the `Cookie` header; `order.rs` is the stable sort used for display order.
- `src/json.rs` — dot-paths through JSON bodies.
- `src/template.rs` — `${{ ... }}` interpolation and `expect` conditions.
  `uuid()` and `now()` read the outside world; each placeholder is specified
  against a `Draw` of those readings.
- `src/cli/` — the command grammar (`parser.rs`), printed text
  (`display.rs`), the decisions around one exchange (`exchange.rs`) and the
  state machine that runs a command list (`runner.rs`): the caller performs
  each action (HTTP, files, stdin, sleeping, printing) and reports back.
- `src/session.rs` — session file names, owner stamps, `/proc` start times
  and the cleanup rule; `src/http.rs` — response headers and charsets.
- `src/bindings.rs` — the trusted calls into std, `serde_json`, `url` and
  `uuid`, each with the contract the library relies on.
- `app/` — `main`, the reqwest client, session and preset files (serde),
  process lookups, and printing.

Laws the library promises are public proof functions named `law_*`.
