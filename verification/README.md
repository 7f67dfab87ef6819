# ARCANA

A tarot-themed grid raycaster. The library (`src/`) holds the parts of the
game that are decided on integers and is verified with Verus; the program
(`app/`) opens the window, reads input, synthesises sound, and does the
floating-point geometry and shading around it.

- `level` — the three arcana (0 The Fool, XII The Hanged Man, IX The
  Hermit), level maps, their parsed cell grid, and breadth-first
  reachability (a level is completable when its three cards, its spirits and
  its portal can all be walked to from the spawn).
- `game` — which sprites are still in play, the collected/dispelled
  counters, when the portal opens, the light spirits drain, and the flow
  menu → level → result → next level → victory, with defeat and retry.
- `controls` — The Hanged Man's curse, which inverts every control.
- `textures`, `sprites` — RGBA texture buffers, texel noise, and the
  integer-drawn parts of the sprite frames (spirit silhouette, card face,
  portal orbs, billboard clipping).
- `raycast` — the RGBA frame buffer, wall-slice clipping and wall texture
  choice.
- `audio` — WAV framing, the noise generator, and music-track bookkeeping.
- `ui` — menu selection.
