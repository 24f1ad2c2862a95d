# tradingbutler

The rules of a broker and rates service, written and proved in Verus.

Brokers are registered in an admin API, which issues their keys. Terminals connect to a collector,
introduce a broker with the digest of its key, and send live messages, which are published to the
broker's stream and kept as the latest of their symbol. A writer keeps the latest rates of all
brokers for a JSON file, and a streamer sends every message to every connected client.

The services share a store. The admin API keeps a broker at `tradingbutler:broker:{id}`, which is
where the writer finds it in the namespace `tradingbutler`. The collector and the streamer look for
brokers at `brokers:{id}` in their namespace, and keep their streams and snapshots behind it; the
admin API deletes those with the broker.

- `src/` is the library. It decides: each request, message, scan or read is answered by a function
  whose contract says exactly what comes of it. The laws that hold across functions are the proof
  functions whose names start with `law_`.
- `app/` is the programs around it: HTTP and websocket endpoints, Redis, files and timers. It does
  what the library decides and reports back what came of it.
- `tests/` runs the library on concrete values, with the crates that it calls.

What the library has from other crates (SHA-512, UUIDs, JSON, the grammar of addresses and networks,
the texts in stream entries, the clock) stands behind small functions whose contracts say what is
taken on trust.
