# space_shooter

The rules of a top-down space shooter, verified with Verus.

`src/` is the verified library:

- `input` — which of the keys `a`, `d`, `s`, `w`, `f` are held;
- `util` — identifier allocation and the closest-candidate scans used for
  aiming (distances are compared through order-preserving integer keys);
- `clock` — the monotonic clock, read through trusted wrappers;
- `weapon` — trigger rate limiting, the rail gun's bursts, the laser's
  single beam, and projectile bookkeeping (expiry, sweeping, homing);
- `explosion` — the frame sequence of an explosion;
- `entities` — hit points;
- `ai::patrol_area` — patrol routes;
- `player` — movement key and evasion logic;
- `background` — the scroll key;
- `audio` — the sounds of the game.

`app/` is the application: the window and its event loop, keyboard
plumbing, and the floating-point geometry (positions, headings, collisions,
animation timing) that feeds the library and acts on its decisions.
