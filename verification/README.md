# Slipstream

The core of a sync engine for Zcash light wallets, written in Verus: what the engine decides
and computes stands in `src/` with contracts that Verus proves, and the sockets, the wallet
database and the command line stand around it in `app/`.

- `src/fetch/`: the fetch pipeline, from the plan of a range to the ordered release of its
  blocks, with the detector of a collapsed wire.
- `src/engine.rs`, `src/enhance.rs`, `src/mempool.rs`: a sync pass, the enhancement of
  transactions and a mempool session, each as a machine from events to next steps.
- `src/graft.rs`, `src/graft_accumulator.rs`, `src/census.rs`: the commitments of shards
  without notes.
- `src/batch_sinsemilla.rs`, `src/lookup_build.rs`, `src/pallas.rs`: Orchard's Merkle combine
  in batches, equal to the one of the `orchard` crate.
- `src/events.rs`, `src/ffi_handle.rs`: what a host polls and drains.
- `src/oracle.rs`: the comparison of two wallets.
- `src/cli/`: the commands' arguments, configurations and words.

Functions named `law_*` state what holds of several functions together. What is believed of
the crates underneath is written in the functions marked `external_body`, one for each call.
