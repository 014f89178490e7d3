# FROST-GKR

GKR arguments for sequences of Poseidon2b permutations over binary tower fields, written and proved in
Verus. Every function of `src/` carries a contract that says exactly what it computes, and the laws that
tie the functions together are proof functions beside the definitions they speak of.

- `src/` is the library: tower fields up to GF(2^256), multilinear extensions, the Poseidon2b sponge and
  its Fiat-Shamir channel, the product-chain proof of a sequence of 59 permutations, the FROST
  orchestration, and one walk over regions of unequal width.
- `tests/` runs the library on concrete values.
- `app/` is the benchmark driver around it.

Completeness is a law of every argument: honest proofs of true statements are accepted, and what is left
to discharge is true. For FROST it is conditional on the completeness of the two constraint sumchecks.
Soundness up to luck is a law of the product, batch and permutation arguments, of the batch phase of
FROST and of the walk: an accepted false claim needs a challenge at which a
false round polynomial agrees with the true one, or false claims that combine to the same value as the
true ones. How few round challenges, and how few combining challenges of the walk, do that is proved too.

The constants of the permutation are a value (`Poseidon2bPermutation`) that callers pass in; what is
proved holds for every choice of them. Likewise `prove_frost` and `verify_frost` take the layout of the
witness and the two constraint sumchecks as arguments.

The only assumption about code outside the library is in `src/parallel.rs`: rayon's parallel map over a
range collects its results by position.
