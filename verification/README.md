# dianadb

A small sharded SQL front end, verified with Verus.

- `src/` is the verified library: the tokenizer (`tokens`), the statement
  parser (`statement`, `keyword`), the configuration handshake between a
  client and its replicas (`config`), a replica's request handling and the
  client (`server`), text helpers (`text`), the errors (`error`), and
  properties of the library as a whole (`laws`).
- `app/` is the network side: it reads configuration messages and
  statements from TCP connections, hands them to the library, and writes
  back what the library answers.
- `tests/` runs the library on concrete inputs.
