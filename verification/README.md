# querypie-cli

A command-line client for QueryPie databases: it logs in through a webview
session, lists connections, databases, schemas and tables, and runs SQL
through QueryPie's gRPC-Web API.

## Layout

- `src/` is the library, verified with Verus. It holds the logic: the
  gRPC-Web framing, trailers and status errors; cookie headers; decoding of
  query results (their MessagePack row blocks read with rmpv) and catalog
  responses; the choice of a connection and the
  request that opens a session; the per-host session cache; table rendering
  and the other output; the decisions of authentication, session reuse and
  shell completion, each a function from a state and what the last step came
  to, to the next state and step; the text helpers they rest on.
- `app/` is the `querypie` program around it: argument parsing, HTTP,
  protobuf encoding, files, the login webview and printing. It performs the
  steps the library asks for and reports back what came of them.
- `tests/` exercises the library from outside.
