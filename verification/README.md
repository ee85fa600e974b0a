# Aphelion

An interactive, physically real 3D solar system: Newtonian N-body gravity with
symplectic integrators, bodies placed on their J2000.0 orbits, and a wgpu
renderer that copes with astronomical scales.

## Layout

- `src/` — the `aphelion` library, verified with Verus. It holds the discrete
  core of the program, each function with its contract and proof:
  - `body` — body handles and categories, name lookup, the light source;
  - `integrator` — the catalogue of integration schemes and how the
    "next integrator" key cycles through it;
  - `time` — proleptic Gregorian dates to Julian day numbers and back (proved
    inverse to each other, and proved to count days), and the ISO-8601 text
    of a date and time;
  - `mesh` — the index buffer of the sphere every body is drawn with;
  - `render` — how tracks become line lists and staging buffers grow;
  - `input` — what each key does.
- `tests/` — tests of the library on concrete values.
- `app/` — the program around the library: the floating-point physics
  (forces, integrators, orbital elements, the simulation clock), the Solar
  System catalogue, the camera, the wgpu renderer, the egui panel and the
  winit window.
