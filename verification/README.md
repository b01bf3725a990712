# vivarium

A small 3D ecosystem: insects swarm, birds flock, hunt, nest and raise
hatchlings on procedurally grown trees, and squirrels climb the trees along a
navigation graph to raid the nests.

- `src/` is the verified library (Verus): the navigation graph and its A*
  search, the neighbour grid, L-system rewriting, the hunting, nesting,
  hatchling-alert and squirrel state machines, meal selection, respawn counts
  and camera-mode decisions, each with its contract, plus the laws that tie
  the operations together.
- `app/` is the Bevy program around it: components, systems, floating-point
  steering and geometry, rendering and input. It hands plain values to the
  library and applies what the library decides.
- `tests/` exercises the library on concrete scenarios.
