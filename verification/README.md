# shred_pipeline

Turns the shreds of Solana blocks, as they come over UDP, into the instructions in
them. The library in `src/` is verified with Verus.

- `shred`: the wire layout of shreds and the reading of their headers.
- `fec`: what is known of each erasure set (`fec_set`), the recovery of missing data
  shreds (`reed_solomon`), the entry batches of each slot (`slot_assembler`), and the
  tracker that brings them together.
- `entry`, `base58`, `decimal`, `types`: plain values that the pipeline reads and
  gives.
- `callback`: the functions that a pipeline calls, with a record of the calls.
- `pipeline`: from packets to instructions, with filters and callbacks.

The functions that read the entries of a batch and that find the instructions of a
transaction are parameters of the pipeline. `app/` runs a pipeline on a UDP socket.

Each type has a view, a state in mathematical terms, and each function says what it
does to that state. The public proof functions state what holds of several calls
taken together.

What is believed without proof are the contracts of two functions that call other
crates: `rs_reconstruct` in `fec/reed_solomon.rs`, with the name
`reconstructed_shards` for what it gives and the declared error type of that crate,
and `encode_signature` in `base58.rs`.
