# llama-capture

Captures request and response bodies from a running llama-swap proxy, and writes
them as JSON. The logic is a library verified with Verus; the command-line tool
around it does the input and output.

## The library, `src/`

- `config`: what the tool is told to do, and where captures go.
- `connection`: the requests to the proxy, the answers that are taken, and the
  delays before a lost connection is tried again.
- `sse`: the stream of server-sent events, read line by line from chunks that
  may be cut anywhere.
- `capture`: the names of the files, and the decoding of captures.
- `metrics`: a run over the entries of an event, as steps that say what to do
  outside and take up what came of it.
- `models`, `json`, `text`: the data, what JSON values hold, and numerals.
- `connection_laws`, `stream_laws`, `capture_laws`, `metrics_laws`: what holds of
  every connection, stream, capture and run.

Each function says in its `ensures` what it returns or changes. The calls into
`serde_json`, `base64`, `chrono` and the standard library that Verus cannot read
stand in small functions of their own, whose contracts are taken as given.

## The tool, `app/`

Arguments, signals, HTTP requests, files and standard output. It performs what
the steps of the library ask for.
