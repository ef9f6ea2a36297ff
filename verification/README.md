# weirdark

A roguelike set aboard a small cargo ship, with a library at its core whose
behaviour is specified and proved with Verus.

## Layout

- `src/` — the verified library.
  - `vectors` — grid vectors, their arithmetic and neighbourhoods.
  - `map` — the tile map (`PositionMap`), tile blueprints, the map index over the
    `bimap` crate, and path finding (cheapest-first walks, passages of a given
    width, climbs beside walls between levels).
  - `map_builders` — the ship's builder: corridors, rooms, the layout of the small
    cargo ship, furnishing its areas and fitting ducts and wiring; the flat test
    plain and the two-room map for trying out the ship's systems.
  - `wiring`, `ducting` — laying wire and duct sections along routes.
  - `systems` — movement blocking and the run state after a turn's events, door
    alignment, circuit tracing, power network bookkeeping and device lists, and the
    cells gas can spread to.
  - `gui`, `menu`, `player`, `states`, `camera` — the decisions behind the main
    menu, the interaction and inventory screens, the player's keys and the cameras.
  - `entities`, `spawner`, `colors`, `rng`, `save_load_system` — components,
    glyph rules, colours, and the random number and save file helpers.
- `tests/` — tests of the library on concrete values.
- `app/` — the program: the window and frame loop (`rltk`), the entity world
  (`specs`), saving (`serde`), and the floating-point simulations of light, sight
  and gas.
