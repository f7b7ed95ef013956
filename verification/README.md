# GeoVeil-MP core

Verified core of a GNSS code-multipath and cycle-slip analysis library, written in
Verus.

- `src/` — the verified library: GNSS systems, satellites and RINEX signal codes
  (`gnss`), carrier frequencies and partner bands (`freq`), phase-pair and reference
  phase choice (`selection`), loss-of-lock slips, the slip summary and the report order
  (`slips`), the combination registry (`plan`), code filters (`filters`), arc
  boundaries, moving-average windows and decimation (`arcs`), report names (`names`),
  default thresholds (`thresholds`) and ISO timestamps through `chrono` (`timefmt`).
- `app/` — the floating-point engine (multipath combinations, geometry-free and
  code-phase differences, debiasing means, statistics), serde copies of the library
  types, CSV output and the PyO3 bindings.
- `tests/` — tests of the library.
