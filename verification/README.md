# drummr

A MIDI drum sound generator. The decision-making core is a Verus-verified
library; the audio engines, devices, files and the WebSocket server are an
ordinary Rust program around it.

## Layout

- `src/` — the verified library:
  - `commands` — the UI text protocol (`parse_command`);
  - `mapping` — note → slot mappings, the 128-entry note table, trigger routing;
  - `scheduler` — the bounded deferred-trigger queue and its sample clock;
  - `modulation` — modulation sources, per-parameter route lists, persisted routes;
  - `midi_file` — scheduling the percussion notes of a Standard MIDI File;
  - `midi_in` — what a live MIDI message makes the engine do;
  - `names` — preset and preview-track names, track-name validation;
  - `engine`, `sound`, `timing`, `clock`, `analysis`, `rng`, `settings`, `ui`,
    `text` — engine selection and routing tables, beat divisions, sync and
    tempo-stability decisions, clip statistics, the noise generator, settings,
    UI bookkeeping and the character-level string functions they rest on.
- `tests/` — tests of the library.
- `app/` — the program: synthesis engines and post-FX (floating point),
  audio stream, MIDI ports, persistence, WebSocket server.
