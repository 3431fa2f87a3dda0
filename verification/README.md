# k2f_layout

Page layout for semantic documents, written in Verus: measuring and arranging
boxes, grids, columns and lists, splitting styled text into runs, greedy line
wrapping, pagination of flows and tables, post-layout slack diagnostics and the
per-page render plan. Every function in `src/` carries a contract that Verus
proves; the laws of the library (what wrapping keeps, what pagination
preserves, what the render plan paints and in which order) are public proof
functions next to the code they speak of.

- `src/` — the verified library.
- `tests/` — executable tests of the library.
- `app/` — unverified code around the library: serde forms of its types with
  JSON entry points, and the drivers that run the verified step machines
  (wrapping, pagination, container measuring) with outside measurements.
