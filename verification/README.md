# rust_lessons

Verified pieces of a set of small Rust programs, written with Verus.

- `src/pb.rs` — the messages of a key-value service: values, pairs,
  commands, responses and errors, with a mathematical model of responses.
- `src/storage.rs` — the `Storage` trait, specified over a map from
  (table, key) to value, and `MemTable`, an in-memory store that implements it.
- `src/command_service.rs` — how `hget`, `hgetall`, `hset` and `hdel` run
  against a store, and what they answer for every answer of the store.
- `src/service.rs` — routing of requests, handler lists that run until one
  answers `true`, the service itself, and its laws (a read gives back a write,
  a delete makes a key absent, handlers after a stopping handler do not run).
- `src/shared_service.rs` — a service over a store behind a shared trait object.
- `src/rgrep.rs` — what a small grep prints: numbered matching lines with the
  match highlighted, under the file name; regular expressions come from the
  `regex` crate and colors from the `colored` crate.
- `src/text.rs` — splitting a string at the first separator, and a greeting.

`app/` holds the grep command line (argument parsing, globbing, reading files
in parallel), the C-callable functions, and programs that demonstrate threads,
`RefCell`, `Mutex` and raw memory.

The key-value `Service` owns its store and answers through `&mut self`, and
`Storage::set` and `Storage::del` take `&mut self`: the verified model of a
store is its contents, which a shared, interior-mutable store would hide. So a
service is not a cheap handle that clones share across threads; a caller that
needs one service on several threads puts it behind its own lock.
