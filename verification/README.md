# redqueue

A topic-based message queue over a Redis store, with delivery to in-process
subscribers through channels.

- `src/` is the verified library (Verus): the checked store URL
  (`connection`), message ids and their text form (`ids`), the store keys (`keys`), messages (`message`), the per-topic
  subscriber registry (`registry`), the store commands and a model of what
  they do (`store`), the commands that publishing, reading and cleanup issue
  (`queue`), and the proofs that a read gives back the newest messages
  published to a topic and that a removed message is gone (`retrieval`).
- `app/` is the program around it: the Redis connection, the tokio channels
  and streams, JSON encoding of messages, and the example `main`.
- `tests/` exercises the library, including publishing and reading against an
  in-memory store.
