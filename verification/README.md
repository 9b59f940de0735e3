# fcr-simulator

A simulator for the fast confirmation rule (FCR) of the beacon chain. It replays a range of
historical slots on a headless beacon chain, as an orchestrator's plan says, and writes one
JSON record per slot: which block the rule had confirmed one slot later, and how far behind.

The rules of the simulator are a library that is verified with [Verus]; what touches the
network, the disk and the beacon chain is a thin program around it. The library asks for
outside work by returning values that describe it, and is handed the replies.

- `src/config.rs`, `src/manifest.rs`: the command line's rules, the manifest, exit codes.
- `src/http/`: the orchestrator's interface: addresses, replies, the attestation plan and the
  instruction for a single slot.
- `src/sim/`: the preparation of a run (`bootstrap`), the run itself (`engine`), the record of a
  slot (`result`), what holds of every run (`laws`), and in which order its work is done
  (`order`).
- `src/output/`: the record's fields and when the output is flushed.
- `src/era/`: ERA files: their index, their records, and blocks by slot.
- `src/xatu/`: attestation timing data: the day of a slot, Parquet tables, a day at a time.
- `src/beacon/`: states and blocks that are kept between runs.
- `src/download.rs`, `src/retry.rs`: downloading a file, and when it is tried again.
- `src/hash256.rs`, `src/text.rs`: roots and hexadecimal text, texts.
- `tests/`: tests of the library.
- `app/`: the program.

`app/chain.rs` builds on Lighthouse's own crates, which come with a Lighthouse checkout.

[Verus]: https://github.com/verus-lang/verus
