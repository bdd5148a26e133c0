# zombie_shooter

The rules of a wave-based 3D zombie arena shooter, with contracts and proofs
checked for every function of the library.

- `src/rules.rs`: wave budgets, spawn batches, hit-point healing.
- `src/scoring.rs`: the kill-combo multiplier (counted in quarter steps from
  x1.00 to x4.00) and the points kills earn.
- `src/horde.rs`: zombies, removal of flagged entries by swapping in the last
  entry, and the resolution of bullets striking zombies.
- `src/session.rs`: the counted state of a game and the decisions each frame
  makes: spawning, kills, hits on the player, powerups, wave changes, restart.
- `app/main.rs`: the game itself on macroquad: input, movement, distances,
  random rolls, drawing, and the frame loop that calls the library.

Positions, speeds and timers are floating-point values and stay in the app;
the app hands the library the outcome of each distance test as flags.
