# salvo_router

A request router for HTTP services, verified with Verus: a tree of routers,
each with filters (path patterns, methods, scheme, host, port, functions),
middleware ("hoops") and an optional handler. Detection walks the tree and
hands out the middleware chain from the root down and the handler of the
first router that matches the whole path.

## Layout

- `src/text.rs`: character-level helpers (search, slicing, joining, decimals).
- `src/request.rs`: the request as routing sees it: method, scheme, host,
  port and path.
- `src/path_state.rs`: the decoded path segments, the cursor that path
  filters move, and the captured parameters.
- `src/pattern.rs`: the grammar of path patterns (`<name>`, `<name:/re/>`,
  `<*name>`, `<**name>`) and its parser.
- `src/path_filter.rs`: matching a parsed pattern against the path state.
- `src/filter.rs`: the `Filter` trait and the method, scheme, host, port and
  function filters.
- `src/handler.rs`: the `Handler` trait, named handlers and guarded hoops.
- `src/router.rs`: the router tree, its builders and `detect`.
- `src/listing.rs`: the indented text listing of a router tree.
- `src/foreign.rs`: the trusted calls into `regex`, `percent-encoding` and
  std's lossy UTF-8 decoding. The one other trusted call, `String::push`,
  is `push_char` in `src/text.rs`.
- `src/laws.rs`: properties proved of every router, request and path.

Public functions state their results in their `ensures`, over the spec
functions of their modules; `laws.rs` states what spans several functions.
Two kinds of result are stated only in part: the middleware that
`hoop_when` builds through the middleware type's `From` conversion is known
only where that conversion has a specification, and function filters must
answer the same on requests and path states of equal value
(`total_and_deterministic`).
