# orbit_propagator

A ground-track viewer for satellites: it reads a two-line element set (TLE),
propagates the orbit with SGP4 and plots where over the earth the satellite
passes.

- `src/` is the verified library: splitting TLE text into its name and rows,
  reading and validating the fields (integers, decimal texts that parse as
  `f64`, exponent fields), the epoch year and its Julian day, and the control
  state of the viewer (what "Update graph" and the time slider do).
- `app/` is the program around it: the SGP4 propagator and the frame
  conversions, which compute in floating point, and the window.
- `tests/` runs the library on concrete texts.
