# deltafishing

An automatic fishing helper for Delta Force (Windows): it listens to the game's audio,
recognises the bite sound and clicks for the player.

The crate has two parts.

- `src/` is the library, verified with Verus:
  - `engine`: the fishing state machine (cast, wait, listen, strike, reel), one tick at a
    time from a time stamp and what was sensed to the next state and the actions to
    perform; and the decisions of the engine loop (capture on/off, hot keys, pause).
  - `input`: right-button bookkeeping, edge-triggered F8/F9 hot keys, the position word of
    a background click.
  - `game`: matching the game process by the first twelve characters of its name, picking
    the game window, the single-instance rule, wide strings.
  - `log`: the bounded log buffer and its export.
  - `updater`: version comparison and the update report built from a release.
  - `studio`: names, colours, session file names and ids of the labelling studio.
  - `text`, `ui`: character helpers and the main tabs.
- `app/` is the program around it: the egui window, audio capture and bite detection
  (floating point), Windows calls, files and the network.

`tests/` runs the library on concrete values.
