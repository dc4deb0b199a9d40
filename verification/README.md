# ants

An evolution simulation: creatures roam a grid map with obstacles, head for
food in sight, eat, reproduce, and are culled when a generation ends.

- `src/` is the verified library (Verus): the map grid and the random placement
  of obstacles and food, the creatures' decisions (target, meals, reproduction,
  ranking and culling), the walk cycle, the user-interface toggles and
  statistics window, and the camera modes. Floating-point quantities reach it as
  order keys (integers that compare as the values do) or as the outcome of a
  comparison.
- `app/` is the Bevy program around it: rendering, input, timers and the
  floating-point physics of movement, energy and colour.
- `tests/` exercises the library on concrete values.
