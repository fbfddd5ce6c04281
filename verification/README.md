# casper_node

The rules by which networks of blockchain nodes are set up, run and checked, with their contracts
proved by Verus.

* `src/` is the verified library. `src/lib.rs` says what each module is for.
* `tests/` runs the library on concrete networks, chains and events.
* `app/` is what surrounds the library: clocks, files, timers, serialization, and the traits through
  which a real network of nodes is driven.

Rewards are recomputed with `num_rational` fractions of 64-bit integers; every operation is checked,
and a computation that leaves their range is reported as an error. Public keys are held by their
rank, so that they are compared and ordered as the keys themselves are.
