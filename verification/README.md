# zooids

A boids-style real-time strategy toy built on bevy. Zooids flock, follow
waypoints through a flow field, attack enemies and see the world through a
fog of war.

- `src/` is the verified library: the cell grid (geometry, radius and
  rectangle queries, entity bookkeeping), per-team visibility counts and the
  fog they clear, obstacle maps and their shader buffers, the integer part of
  navigation (goals, neighbours, passability, search sources), the objective
  state machine, and the meaning of inputs and controls. Every public
  function carries a contract proved by Verus; the laws that relate several
  operations are public proof functions next to them.
- `app/` is the bevy game around it: windowing, rendering, input devices,
  the float steering forces of the boids and the A* search over float costs.
- `tests/` runs the library on concrete grids and inputs.
