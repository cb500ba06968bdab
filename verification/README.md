# defi_substreams

Substreams modules for three Ethereum protocols (Curve, Uniswap V2 and ENS),
with their logic verified by Verus.

- `src/` is the verified library. Each handler of the pipelines is a function
  from plain values (block header, logs, calls, transactions, store answers,
  contract answers) to plain values (records, store writes, entity changes),
  and its contract states the result exactly, over spec functions.
  - `text`, `bigint`: hexadecimal text of bytes; arbitrary-precision integers
    (decimal text, parsing, subtraction, big-endian bytes).
  - `eth`: the chain's values, ABI decoding of words (through `ethabi`), and
    the ERC-20 `Transfer` event.
  - `entity`, `store`: entity changes for the graph sink, and store writes.
  - `curve`: store keys, factory and pool discovery, pool fees, admin-balance
    stores and `Fees` entities.
  - `uniswap`: `Swap` events of known pairs and their `Swap` entities.
  - `ens`: the store of domain records.
- `app/` holds the handlers themselves: they read the block, the stores and
  the contracts' answers (RPC calls), convert them, call the library, and
  write back its results. The decoding of the Curve contracts' own events
  plugs in through the traits of `app/chain.rs` and `app/curve.rs`, which the
  contracts' ABI bindings implement.
- `tests/` runs the library on concrete values.
