# ultimate_fate

The rules of a small role-playing world, written in Verus: the world model and
its turn-by-turn simulation, the content rules that each campaign seed draws,
the input controller, the presentation snapshot, and the tooling protocol used
to drive a session from a terminal. Every function under `src/` carries a
contract that Verus proves; `tests/` runs the library on concrete scenarios.

Layout:

- `src/geometry.rs`, `src/model.rs`, `src/simulation.rs`: positions and maps,
  the world's records, and the simulation that applies player commands.
- `src/content.rs`, `src/random.rs`: per-campaign rules and the seeded
  generator behind them.
- `src/input.rs`, `src/client.rs`: the device-neutral input controller and the
  text the desktop client shows.
- `src/present.rs`, `src/render.rs`: the presentation snapshot and the
  integer parts of the renderer.
- `src/protocol.rs`, `src/lab.rs`: the line protocol, its JSON replies, path
  finding and the experience tracker.
- `src/laws.rs`: properties of the library as a whole, stated and proved.
- `app/main.rs`: a terminal front end for the line protocol.
