# symbolica_community

Index tooling, tensor structures and the rules of algebraic simplification for
high-energy-physics expressions, as a verified library.

- `src/` is the library, verified with Verus. Expressions are plain values
  (`expr::Expr`, viewed as `expr::Term`); every public function states what it
  returns over that model.
  - `expr`: expressions, their views, copies and structural equality.
  - `reps`, `representations`: representations (self-dual, inline-metric,
    dualizable), the library's representation structs and the table of
    registered representations.
  - `slots`, `structure`, `arguments`, `indexing`: dimensions, abstract indices,
    slots, tensor structures with and without indices, reading user arguments,
    and concrete indexing (flat and expanded indices, slices).
  - `tooling`, `cook`, `conj`: wrapping indices, listing dangling indices,
    wrapping dummy indices, cooking indices into symbols, and conjugation.
  - `gamma`, `color`, `rules`: the per-call steps of gamma-matrix
    simplification, the verdict of color simplification, and the rewriting
    rules of the metric, dot-product, gamma and color simplifications as data.
- `app/` is the Python module: it converts symbolica expressions to and from the
  library's expressions, runs symbolica's pattern matcher with the library's
  rules, and exposes the functions and classes to Python.
- `tests/` runs the library on concrete values.
