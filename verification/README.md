# orts

Verified readers and decisions for an orbit simulator, written in Verus.

- `src/icgem.rs`: ICGEM `.gfc` gravity-field files (header, `gfc` records,
  the whole-set checks, early stop at a requested degree); `src/icgem_laws.rs`
  states what every parse keeps.
- `src/finals2000a.rs`: IERS `finals2000A` Earth orientation files (fixed
  byte columns, Bulletin B preferred over A, the padded tail skipped).
- `src/root.rs`: root events of a walk: which events cross over a step, the
  order hits are reported in, the guards that keep a root from being found
  again, and the iteration budget of the bisection.
- `src/sun_sensor.rs`: the configuration of a sun sensor (noise chain,
  occulting bodies, shadow geometry) and what a reading reports.
- `src/earth.rs`: the WGS-84 / EGM96 constants, exact as published.
- `src/reading.rs`, `src/text.rs`: what the readers learn of a number
  written in a file, and the character-level text handling they share.

Numbers in the files are binary64 values, which the library does not hold:
the caller reads each piece of text and hands the library a `Reading` of it:
where the value lies, an order key, and how the value is written back.
`app/` is that caller: it parses the numbers, bisects a step for a root, and
does the sun sensor's vector arithmetic with `nalgebra`.
