# cpge

Mathematics tools for French preparatory classes (CPGE), verified with Verus: combinatorics,
complex numbers, polynomials, vectors and matrices, Gaussian elimination and reduced row
echelon forms, linear systems, vector families and spaces, planes and lines of the space.

## Layout

- `src/` is the verified library. Its numeric code is generic over the scalar type `T` and its
  operators, and takes the values `0` and `1` of `T` as arguments where it needs them. Where
  the tools work up to rounding, the zero test is the `NearZero` trait (`src/traits`), exact
  for integers.
  - `linear/`: vectors, matrices of a fixed size and on the heap, views of regions of them
    (`goggles.rs`, `view.rs`), row operations (`gauss.rs`), Gaussian elimination, reduced row
    echelon forms, inverses and determinants (`elimination.rs`), matrices of row operations
    (`composition.rs`), families, bases and spaces (`family.rs`, `space.rs`), linear systems
    (`solver.rs`) and applications (`application.rs`), products and convolutions. Over exact
    integers, `nullspace.rs` proves that the kernel vectors read off a reduced row echelon form
    solve the system, that there are as many of them as columns beyond the rank, and that row
    operations that can be undone keep the solutions, so that the kernel vectors the solver
    gives solve the system of the matrix it was given. Over scalars whose operations obey the
    laws of a field exactly, `echelon.rs` proves that the Gaussian elimination gives a row
    echelon form, that the reduced row echelon form can always be computed, and that it is
    reduced.
  - `geometry/`: planes and lines of the space of dimension 3.
  - `polynomials/`, `complex.rs`, `combinatorial.rs`, `function.rs`: polynomials, complex
    numbers, factorials, expression trees.
  - `gl/`: the decisions of the windowing layer: how an event of the windowing system is
    sorted, and which physical device renders.
- `app/` is the front end over `num_traits` scalars: it gives the library the zero and one of
  the scalar type, and runs the tools that work up to rounding on floating-point numbers
  through `Real`, whose zero test compares with `epsilon`.
- `tests/` runs the library on concrete values.
