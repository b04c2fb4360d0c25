# da_contract

The storage logic of the data-availability (DA) system contract, written in
Verus: every function states its result in `requires` / `ensures` over a
mathematical model of the contract storage (a map from 256-bit slots to
256-bit values), and Verus proves it. What the outside crates compute
(Keccak-256, BN254 point addition, membership of G2, the pairing) enters
those statements as named functions of their inputs, which the trusted
wrappers in `keccak` and `bn` tie to the calls.

Layout of `src/`:

- `bytes`, `uint`: big-endian byte strings, 256-bit integers, 160-bit addresses.
- `keccak`, `bn`: the calls into `keccak-hash` and `substrate-bn`.
- `signature`: the BN254 signature a signer gives when it registers.
- `layout`: the Solidity-style slot layout (mapping and dynamic-array slots).
- `storage`, `context`: system and account storage, logs, the call context.
- `abi`: the contract's point types and its two events.
- `da_views`, `socket`, `da_writes`, `da_epoch`, `da_agg`: the contract functions.
- `fits`: run-time checks that a call stays within 256-bit slot arithmetic.
- `table`, `dispatch`: the function table by selector and the call dispatcher.
- `laws`: properties that span several operations.

`app/` renders the contract's errors as the node reports them.
