# exonum_dispatcher

Verified dispatcher of service runtimes, written in [Verus](https://github.com/verus-lang/verus).

A node hosts several runtimes. Each deploys artifacts and runs service instances made of them.
The dispatcher keeps the runtimes and a table of the running instances, hands each request to
the runtime it belongs to, and writes what has been registered and started to an information
schema.

* `src/` is the library. `dispatcher.rs` holds the dispatcher; every method has a contract over
  the state and the transitions of `model.rs`, and says what becomes of the fork that the
  information schema is written to. `laws.rs` proves what holds over several requests: an
  identifier is used once, a started or restored service is called in its runtime from then on,
  what one dispatcher has recorded is what another restores, the actions of a transaction are
  carried out in turn until one fails, and none while a request to the node waits to be sent.
  `gathering.rs` does the same for what is gathered from all runtimes.
* `runtime.rs` and `schema.rs` hold the two traits that users implement: the runtimes, and the
  information schema of their storage. Neither promises success; the contracts of the
  dispatcher cover whatever a runtime or a schema answers.
* `tests/` runs the dispatcher with runtimes that do as they are told.
* `app/` is the dispatcher within a node: runtimes behind trait objects, handles to a shared
  fork, deployments as futures, and the channel by which requests to restart the API are sent.
