# scheme-gateway

An API gateway whose plugin logic is written in a small Scheme dialect. A plugin defines
`(on-request req)`; the gateway builds a request table for every incoming HTTP request, calls
the plugin, and turns the `(respond status body)` table it gives back into the HTTP response.
Plugins can call other services with `http-get`. Programs in the integer/boolean subset can
also be compiled to native code with LLVM.

## Layout

`src/` is the library, verified with Verus:

- `ast.rs`, `value.rs`: expressions and runtime values, with their mathematical models and
  the way values are shown by `print`.
- `env.rs`: the store that holds every scope and every table; `Env` and `TableRef` are
  handles into it, so a change made through one holder is seen by all of them. Laws on
  `define`/`lookup` and on tables.
- `reader.rs`: the lexer and reader from source text to expressions.
- `builtins.rs`: every builtin function, with the arguments it accepts and what it gives back.
- `semantics.rs`: the evaluator as spec functions; `evaluator.rs`: the executable evaluator,
  proved equal to it. Evaluation is bounded by fuel; an `http-get` whose reply is not known yet
  stops the run with the request to make.
- `laws.rs`: properties of every run: the store stays well formed and only grows, output is
  only appended, more fuel changes nothing, and a run started again with more replies known
  ends as before or goes further, printing the same lines first.
- `server.rs`: request parsing, response extraction and rendering, and the handling of one
  request by the plugin.
- `jit.rs`: the checks and name resolution that turn a program into the compiled subset, with
  the guarantee that every name and call in a compiled program resolves.
- `runtime.rs`, `text.rs`: how compiled code prints tagged values; string comparison, number
  parsing and formatting, verified against their specifications, and the std string functions
  the library calls, each with the contract its documentation gives.

`app/` is the program around the library: the command line, the tokio HTTP server, the
reqwest client that performs `http-get` requests, and the inkwell code generator. Each time a
run stops at an `http-get`, the request is made and the run is started again from the same
state with the replies known so far.
