# jrow_server

A JSON-RPC 2.0 server over WebSocket with publish/subscribe (exact topics and
NATS-style patterns), persistent subscriptions with replay and retention,
batch requests and middleware. The decisions of the server are a library
verified with Verus (`src/`); the runtime around it (`app/`) does the I/O.

## Layout

- `src/` — the verified library
  - `text`, `index` — text helpers (characters, `.`-splitting, lexicographic
    order) and keyed lists with their lemmas
  - `nats_pattern`, `filter` — pattern parsing and matching; filters and the
    pattern subscription manager
  - `subscription` — exact-topic subscriptions, kept in two agreeing indexes
  - `retention`, `storage` — retention policies and the selection of expired
    messages; message keys, topic metadata, subscription states, replay order
  - `persistent_subscription` — exclusive persistent subscriptions
  - `batch`, `middleware`, `router`, `dispatch`, `publish` — batch limits,
    middleware ordering, method tables, built-in methods and their answers,
    publish deliveries
  - `error` — server errors and JSON-RPC error objects
  - `template`, `template_config` — the project template's handlers and the
    deployment generator's configuration
- `tests/` — tests of the library
- `app/` — WebSocket connections (tokio, tungstenite), on-disk storage (sled,
  bincode), metrics (opentelemetry), asynchronous handlers and middleware, and
  the deployment template generator (clap, toml, tera)

## Design notes

The subscription managers keep their maps as vectors of (key, list) pairs
with an invariant (distinct keys, non-empty lists without repeats) rather
than as `HashMap`s:

- the topic-keyed maps have `String` keys, for which Verus's `HashMap`
  specification proves nothing about lookups;
- the operations that walk a whole map (`get_subscribers` of the pattern
  manager, `get_matching_subscriptions`, `remove_connection`) give their
  results in map order. A `HashMap`'s order depends on a per-process hash
  seed and can't be stated, so the contracts could not say what those
  results are. With vectors the order is the order in which keys first
  appeared, and the contracts state it exactly;
- one representation for both indexes of `SubscriptionManager` lets the
  same keyed-list lemmas (`index`) prove that they always agree.
