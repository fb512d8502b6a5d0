# navette

The decision-making core of a thin-film synthesis engine, written and verified
in Verus: design stacks and their spans, merit specifications with residuals
and sensitivities, bounded least squares (Levenberg-Marquardt and trust-region
reflective), the needle pass, the macro-loop, stagnation detection, and the
weaver that keeps spectral curves on their grids.

## Numbers

A double is held as its bit pattern (`scalar::Scalar`). Comparing, clamping,
signs and neighbours are decided on the pattern. Arithmetic is a parameter:
`numeric::Numeric` (sums, products, quotients, roots) and `optics::Optics`
(logarithm, rounding, arguments, reference phases). Contracts state results
exactly, as expressions over these operations; all that is asked of an
implementation is that a result depends on its operands alone.

## Layout

- `src/` — the library; every item in it is verified. Each module's laws are
  public proof functions, next to what they are about or in a `laws` module.
- `src/spectralweave/store.rs`, `src/spectralweave/key.rs`, `src/text.rs` — the
  trusted items: hash maps, small vectors, the LRU cache, the grid fingerprint
  and quoting.
- `tests/` — tests with real doubles and the real outside crates.
- `app/` — ordinary Rust around the library: floating point, JSON, locks, the
  outside solver, and the simulation that a run works on.
