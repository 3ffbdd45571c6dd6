# minigames

Game rules of a set of terminal brain-training mini games, written in Verus and proved
against their contracts.

- `src/` — the verified library: the state machines, judgements, question generators, scoring
  and cell geometry of Count Mania, Look Away, Oikake (memory), mental arithmetic, pattern fill
  and puzzle connect, plus the shared score tracker, answer feedback and countdown. Random
  choices go through `rand` behind a few trusted wrappers (`src/random.rs`).
- `tests/` — scenario tests of the library.
- `app/` — ordinary Rust around it: terminal events and durations turned into plain values,
  the time-stamped, serialisable session result, and the floating-point visuals (colours,
  ripple and cross images, fish, and the positions of the circles of rounds four and five).
  Those rounds are meant to scatter the circles near a correct click; the scattering step
  itself is not implemented here, so their circles stay where they were laid out.

Time is counted in whole milliseconds and angles in whole degrees throughout the library.
