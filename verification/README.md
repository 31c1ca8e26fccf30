# seabed

Rules of a deep-sea scanning game for two players (drones scan creatures,
report their scans for points, first-to-save and combo bonuses), a pod race
environment, and the base65536 / bfloat16 codecs used to ship network weights
as text.

- `src/` — the verified library:
  - `base65536.rs`: `encode` / `decode` between bytes and base65536 text, with
    the round-trip laws `decode_inverts_encode` and `encode_inverts_decode`;
  - `bfloat.rs`: `f32` ⟷ bfloat16 bit-pattern conversions (round to nearest,
    ties to even; quiet NaNs);
  - `drone.rs`: a drone's battery (100 units; a lit turn spends
    `LIGHT_BATTERY_COST` = 5, a dark turn recharges 1), light, life state
    and message;
  - `game.rs`: the game's rules state (`Game`, with its model `GameView`):
    scanning, reporting, bonuses, scores, batteries, upkeep, end of game;
  - `race.rs`: pod race maps, actions and checkpoint progress;
  - `palette.rs`: drawing colors.
- `tests/` — tests of the library.
- `app/` — the program: replay of a recorded game through the rules, the pod
  race physics (`f32`), and the weight loaders (`f32`).
