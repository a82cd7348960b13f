# kvs

A small set of storage and terminal tools whose logic is verified with Verus.

- `src/kv.rs`: a key/value store of strings whose state is the replay of a log of
  `SetValue`/`Remove` commands; `set` compacts the store into a log of one `SetValue` per key in
  key order. The laws of the log (replay of concatenated logs, canonical compaction, read after
  write) are proof functions there.
- `src/ordered_map.rs`, `src/order.rs`: the sorted association list that holds the store, and
  the character order of its keys (the order of their UTF-8 bytes).
- `src/browser.rs`: the decisions of a terminal S3 bucket browser: settings from the
  environment or a settings file, the location and pane contents it shows, and the state after
  each terminal event.
- `src/clock.rs`: timestamp messages of the latency client.
- `src/iterators.rs`, `src/lending.rs`: the storage iterator interface and a lending iterator.
- `app/`: the programs around the library: log file I/O and JSON records of the store, the
  network and terminal side of the browser, and the latency client's TCP/RON output.
