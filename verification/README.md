# leandas

Data availability sampling on Reed-Solomon codewords over the KoalaBear field, verified
with Verus.

Codewords are committed to with Merkle trees, combined with challenges drawn from their
commitments, and folded to show that they are of low degree. Batches of codewords are proved in a
virtual machine, and the proofs are aggregated. A verifier checks the proofs and openings
at sampled positions.

- `src/`: the library. Its contracts speak of the models `Seq<int>` for vectors over the
  field and `Ext` for elements of the quintic extension.
  - `field`, `ext`, `roots`, `sums`, `numeric`, `slices`, `text`: arithmetic and sequences.
  - `polynomial`, `code`, `fri`, `fold`, `rlc`, `soundness`: codewords, folding, random
    linear combinations.
  - `hash`, `commitment`, `types`: Merkle commitments and openings.
  - `vm`, `inputs`, `witness`, `machine`, `air`, `air_laws`, `circuit`, `metadata`: what
    goes into the circuits and their compilation.
  - `batch`, `proving`, `claims`, `recursion`, `aggregation`, `tree`, `deep`: proofs of
    batches and their aggregation.
  - `pipeline`, `verification`, `das_laws`: the whole system.
  - `cli`, `workload`: options and test workloads.
- `tests/`: its tests.
- `app/`: the command line. `machine.rs` holds the calls into the virtual machine, its
  compiler and its proof system; the library takes these as closures.
