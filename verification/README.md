# arris_debug

The dev-facing tools of the Arris kernel — the parts that decide, count
and print — written in Verus and proved against their contracts.

- `src/` is the library, every item of it verified: the refusal
  histogram and its markdown, the differential's outcome classes,
  exclusions, shrink and report lines, the oracle cache's keys and
  settings, the seeds and shards of the property tests, the corpus
  runner's dumps and diff, the lints of solid, geometry and part
  fixtures, a fixture's recipe hash, the survey's records, the recipe
  expression parser, the raster histogram, and the text and line
  helpers they share.
- `tests/` runs the library on concrete values.
- `app/` is the ordinary Rust around it: environment and files, the
  Python oracle's processes, serde copies of the library's report types,
  PNG output, and the timing and expression arithmetic that works in
  floating point.

The library calls `sha2` for SHA-256, `serde_json` to read a recipe's
values and `format!("{:?}")` for quoting; the contracts name what those
return rather than restating them.

What is not here: the runners that build solids with the Arris kernel
crates and read them back (the survey's, the corpus runner's and the
differential's drivers, the dumps of a model, the sample solids and the
recipe writer), since those crates are not available to this build, and
they work in floating point throughout. Their decisions — what a stage
records, which outcome a run gets, what is excluded, what is kept while
shrinking, how a report is printed — stand in the library; only the
kernel calls around them are missing.
