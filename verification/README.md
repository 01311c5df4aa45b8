# multiplayer_fps

The rules of a networked "Maze Wars" style shooter, verified with Verus,
and the game program around them.

- `src/` is the verified library:
  - `level` — the arena map, which cells a player may step on, the spawn
    cells, and the text format of a map (25 lines of 25 digits, `0` = empty);
  - `protocol` — a player's cell and heading, and the per-tick inputs;
  - `shared` — turning, moving and shooting;
  - `client` — turning key presses into one input per tick, and the client's
    prediction of its own shot;
  - `server` — the table from clients to their players, player colours, and
    the resolution of a shot;
  - `info` — reading the server address and the player name typed at the
    terminal, and the id and level derived from them;
  - `config` — the transports and sockets a session opens;
  - `keyboard` — what to report of the number keys.
- `app/` is the game program (Bevy and Lightyear): terminal prompts, command
  line, rendering and networking. It reads the level map from
  `assets/level1.map`.
- `tests/` runs the library on concrete cases.
