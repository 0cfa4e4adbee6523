# tael-server

The verified core of an observability server: traces, logs and metrics come in
over OTLP, a Datadog agent's protocol, Prometheus remote-write or a broker, and
are queried over HTTP.

`src/` is a Verus library. Everything the server decides stands there with a
contract: how each protocol's records become spans, log records and points; who
may do what with which key; what a query means; when an alert fires; which
traces are scored, clustered or kept; how a batch is cut by shard, and when an
offset may move on. The library holds measured numbers as the bits of doubles
and never computes with them.

`app/` is the program around it: listeners, storage, background loops, JSON, and
the floating-point arithmetic that the library leaves open. SQL queries are run
by DataFusion, in builds with the `sql` feature.

`tests/` runs the library.

## Layout of the library

| module | holds |
| --- | --- |
| `text`, `number`, `hex_number`, `doubles`, `json`, `time` | characters, literals, instants |
| `labels`, `text_map`, `grouping`, `ranking` | maps and orders that are the same on every run |
| `spans`, `metrics`, `queries` | what is stored, and what is asked for |
| `auth`, `authz`, `address`, `crypto`, `tenancy` | keys, roles, tenants, and who passes |
| `config`, `retention`, `server`, `migrate` | settings and what a server does with them |
| `cluster`, `api::wal` | election, epochs, fencing |
| `alerts`, `scoring`, `similarity` | rules and their state, sampling, clusters |
| `promql`, `promql_eval`, `promql_laws`, `sql` | query languages |
| `ingest` | protocols, admission, counters, forwarding, the broker |
| `api` | requests, live feeds, topology, evals |

What outside crates do enters through small functions marked
`#[verifier::external_body]`. The comment above each says what is taken on trust.
