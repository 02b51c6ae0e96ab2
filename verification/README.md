# msm

A Schrödinger–Poisson (fuzzy dark matter) simulator, split in two:

- `src/` — the verified library (Verus): dimensionality and grid shapes
  (`grid`, `af` for ArrayFire's `Dim4`), file names and write throttling for
  dumps (`io`), checks and layouts for initial conditions (`ics`), the step
  and dump counters (`stepping`) and removal of finished items from a list
  (`collections`). Each public function has a contract; the laws that relate
  functions are proof functions next to them.
- `app/` — the floating-point part on the GPU through ArrayFire: initial
  conditions, the split-step time integration, the potential, aliasing
  checks and disk output. It takes the grid shapes, counters, file names and
  input checks from the library; a few fixed shapes (single cells, the
  per-axis factors of the k-grid) are written in place.
- `tests/` — tests of the library on concrete values.
