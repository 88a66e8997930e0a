# rust_imperialism

The rules and the computer opponent of a turn-based strategy game in the
style of *Imperialism*, written in Verus: every function of the library
states what it does in `requires` / `ensures` and Verus proves it.

## Layout

- `src/map.rs` – hex tiles (odd rows shifted), distances and neighbours,
  provinces, the tile grid, rails.
- `src/resources.rs`, `src/economy.rs` – tile resources and their
  development, treasuries, goods, buildings, transport commodities.
- `src/civilians/` – civilian kinds and their orders, order validation,
  order execution and multi-turn jobs, hiring, selection and order panels.
- `src/diplomacy.rs` – relations between nations, treaties, offers, foreign
  aid and the orders that change them.
- `src/ai/` – the AI: the snapshot of each nation (`census`, `snapshot`),
  its beliefs and macro candidates (`analysis`, `context`,
  `turn_context`), the goals it sets (`goals`), who does what (`planner`),
  trade and production (`trade`), the per-turn economy routine that
  runs them (`economy_brain`) and the orders it issues (`execute`).
- `src/assets.rs`, `src/bmp_loader.rs` – which bitmap draws what, and
  decoding the game's BMP sprites with their transparency key colour.
- `tests/` – tests of the library on concrete values.
- `app/` – the glue the game needs around the library: reading sprite
  files, the floating-point weights the AI ranks goals and candidates by,
  and the AI turn loop.
