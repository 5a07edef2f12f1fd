# learnnet

A small proof-of-work blockchain node, verified with Verus.

`src/` is the library. Its functions are verified, except six small
trusted wrappers (marked `#[verifier::external_body]`) whose contracts are
believed: the calls into `sha2`, `base64`, `url` and `chrono`, `String::push`,
and `str`'s `Debug` formatting. Its modules:

- `order`, `sorted_set`: three-way comparison, the lexicographic orders, and
  `SortedSet`, a strictly ascending vector that stands for an ordered set
  (what the chain and the pending transactions are kept in).
- `transaction`, `block`: the data, its order (field by field, strings by
  their UTF-8 bytes) and its compact JSON text.
- `json`, `hasher`, `text`: decimal and escaped-string JSON pieces, SHA-256
  and base64 (through `sha2` and `base64`), string building.
- `blockchain`: the chain, pending transactions, nodes, proof of work,
  mining and chain validation, with the laws that mining keeps a valid chain
  valid and that a transaction added twice is stored once.
- `consensus`: adopting the longest valid neighbour chain.
- `types`, `api`: what the web API answers, as plain values.

`app/` is the program around it: arguments (`clap`), logging (`log4rs`),
the HTTP server (`rocket`), fetching neighbour chains (`reqwest`) and JSON
(`serde`, `serde_json`).
