# mcommand

The rules of a Missile Command style game, verified with Verus, and the
macroquad program that plays it.

- `src/campaign.rs`: the campaign state (three bases, six cities, score,
  waves, pause, intermission, game over) and every rule that changes it:
  firing, enemy impacts, target choice, scoring with the wave multiplier,
  a city rebuilt every 10,000 points, wave bonuses, the next wave. Its
  laws are the `law_*` proof functions.
- `src/save.rs`: the save data (settings and high score) and its
  `key=value` text form, with the proof that stored data reads back
  unchanged.
- `src/text.rs`: lines, Unicode whitespace trimming, decimal numbers.
- `src/hud.rs`, `src/labels.rs`: the texts shown on screen.
- `src/wav.rs`: the byte layout of a 16-bit mono PCM WAV file.
- `app/`: the window, input (on the web, Q leads back to a title screen),
  motion of missiles and blasts (floating
  point), drawing, sound synthesis and the save file on disk.
