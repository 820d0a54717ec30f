# rocknrolla

The game server state and content tooling of Rock'n'Rolla, a game of levels
whose characters are unlocked by collecting their pieces from lootboxes.

`src/` is a library verified with Verus:

- `repository/`: the server's tables and services (module owner, characters
  and pieces, players, lootboxes, levels and their progression, components,
  backdrops), the content import requests and the per-player read views.
  `repository/laws.rs` states what holds across calls: connecting twice is
  connecting once, replaying a completion changes nothing, importing content
  again keeps its UUIDs, views never show another player's rows.
  `repository/keys.rs` states the invariant every request keeps: the tables
  upserted under generated UUIDs hold unique keys below the next UUID, so a
  fresh UUID never overwrites a row.
- `seed.rs`, `tiled.rs`, `level_source.rs`, `component_source.rs`,
  `backdrop_source.rs`, `character_art.rs`, `scene.rs`, `markers.rs`,
  `silhouette.rs`: the content pipeline that checks authored content before
  it is imported, and lays out component grids and their collider markers.
- `command.rs`, `cli.rs`, `confirm.rs`: the admin shell's command language,
  options and import confirmation.
- `uuid.rs`, `ids.rs`, `text.rs`, `validate.rs`, `error.rs`: shared pieces.

`app/` is the admin program around it: it reads files, talks to the database
service and renders SVG, and hands the library plain values.

`tests/` exercises the library from outside.
