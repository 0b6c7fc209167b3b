# Neon Command rules library

The rules of the Neon Command tower-defense game as a library whose
behaviour is specified with `requires`/`ensures` contracts and proved with
Verus.

- `src/` — the verified library: tower economy and synergies (`rules`,
  `tower`), the player's purse and combo (`economy`), map and path
  generation (`map`, with `random` for the random source and `draws` for
  the generators' exact result for given draws), the spatial grid
  (`spatial`), waves and their
  enemies (`enemy`, `preview`), kill and escape settlement (`events`),
  statistics (`stats`), object pools (`pool`), abilities and keyboard
  controls (`abilities`, `controls`), first-session tips (`tips`), the saved
  records and their text form (`persistence`, `saved`, `text`), challenge
  links (`challenge`) and analytics properties (`analytics`).
- `tests/` — tests run against the compiled library.
- `app/` — the browser shell: the Bevy frame loop, browser storage, and the
  floating-point parts of the game (stat scaling, wave sizes, positions
  and their grid cells).
