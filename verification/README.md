# mini_redis

A small replicated key-value store with optimistic transactions, written in
Verus. Each shard has a master and any number of slaves; a proxy routes every
key to the master of its shard by the key's hash and spreads reads over that
master and its slaves; a master records each write it applies in an
append-only file, from which it is rebuilt when it starts.

- `src/` is the verified library: the state and decisions of every node
  (`master`, `slave`, `proxy`, `context`, `client`), the append-only file
  format (`aof`), and the text handling they share (`text`, `keyed_map`).
- `app/` holds the programs: the RPC servers and clients, the files, and the
  event loops, which carry out what the library decides.
- `tests/` runs the library on concrete values.
