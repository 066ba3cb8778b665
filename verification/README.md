# pastoral

The logic of a small top-down tile game, verified with Verus.

- `src/` is the verified library: the inventory and item catalog, level files
  and their validation, the tile grid of a scene, the registry of loaded
  levels, the built-in main scene, hero animation frames, potion throwing and
  the inventory HUD layout. Amounts that the game keeps as `f32` (depths,
  effect modifiers, damage) are carried as their IEEE-754 bit patterns.
- `app/` is the Bevy program around it: windowing, rendering, input, timers,
  file reading and JSON parsing, and all float arithmetic.
- `tests/` runs the library on concrete values.
