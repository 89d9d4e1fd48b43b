# path_rpc

A route-planning service between four cities (New York City, Boston,
Providence, Bar Harbor). Each request for a path gets the shortest path over
the road graph as it is loaded at that moment; the journey it plans then adds
one unit of crowdedness to every road it travels over, until the journey is
complete and the server takes that traffic off the roads again.

Requests and responses follow JSON-RPC 2.0 over a small HTTP/1.1 layer.

## Layout

- `src/` — the verified library (Verus):
  - `graph.rs`: the road graph (petgraph's `GraphMap`) as a map of weighted
    edges, paths and their costs, the shortest-path search, and lemmas on
    shortest paths (a shortest path over positive weights visits no node twice,
    and its cost is bounded by the number of roads times the largest weight);
  - `state.rs`: the server state and its invariant — every road weighs its
    initial travel time plus the traffic of the journeys under way — kept by
    planning a journey and by releasing the journeys that are complete;
  - `server.rs`: routing and answering a request;
  - `wire.rs`: reading a request off the wire (with httparse and the http
    crate) and writing a reply;
  - `json.rs`, `rpc.rs`: JSON values, JSON-RPC requests and responses, and the
    client's side of a path request;
  - `city.rs`, `time.rs`, `text.rs`: cities and their node identifiers,
    instants, string equality.
- `tests/` — tests of the library on concrete values.
- `app/` — the server program and the client: sockets, threads, futures,
  serde serialisation of the JSON-RPC types, and the HTTP client. Run with
  `client [URL]`, the program is the example client instead of the server.
