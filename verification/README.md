# mc_keygen

Vanity Ed25519 keys for MeshCore: keys whose public key, written in upper-case
hex, starts with a chosen prefix. The library is written in Verus; what each
function does is stated in its contract and proved. Which random bytes the
operating system gives, and whether it gives any, no contract says.

## Layout

- `src/scalar.rs`, `src/curve.rs`, `src/keygen.rs`: scalars, multiples of the
  base point, keypairs.
- `src/chain.rs`, `src/search.rs`: chains of keys eight apart, the steps of a
  search, how a search ends.
- `src/prefix.rs`, `src/hex_text.rs`, `src/packing.rs`: which prefixes are
  accepted, which keys they match, and the buffer that devices read them from.
- `src/device.rs`, `src/gpu.rs`, `src/metal_gpu.rs`: the host side of a search
  on a device, and the comparison of a device's keys with the host's.
- `src/bench.rs`, `src/display.rs`, `src/text.rs`, `src/types.rs`: the
  benchmark, what a user sees, and the values they speak of.
- `src/entropy.rs`: random bytes of the operating system.
- `app/`: the command line program around the library. It reads the sources of
  the device kernels from `cuda/` and `metal/` in the working directory.
- `tests/`: the library on concrete values.

## What is trusted

The functions of `curve25519-dalek`, `sha2`, `hex` and `rand` that the library
calls stand behind small wrappers, each with a contract that says what is
believed of it: in `curve.rs`, `keygen.rs`, `hex_text.rs` and `entropy.rs`.
Of SHA-512 and of the encoding of a point only that they are functions of their
input is used.
