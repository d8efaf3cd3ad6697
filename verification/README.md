# sha3_gadget

SHA3-256 and Keccak-256 digests computed in circuit, verified with Verus, and
the rules with which the lookups of such a circuit are described to extraction
backends.

- `src/` is the library. `padding` pads a message, cuts it into blocks and says
  which constants the padding is held to; `sha3_256_gadget` issues the
  instructions of a chip (`instructions`) that absorb the blocks and squeeze the
  digest, and `region` imposes the constants; `sponge` says what a digest
  amounts to, and `shape` what the circuit depends on. `lookup_callbacks` describes
  lookups into the spread table as statements (`ir`) over expressions
  (`expression`, `scalar`); `lookup_laws` and `spread` say what the descriptions
  mean. `extraction` holds the circuit that digests one byte.
- `tests/` runs the library, over a chip that computes the permutation natively.
- `app/` connects the library to `midnight_proofs` circuits and to `haloumi`.

Arithmetic in the field and on numbers of any length comes from
`midnight_curves` and `num_bigint`; the contracts of the few functions that call
them (`scalar`, `le_bytes`) are taken on trust.
