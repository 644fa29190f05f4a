# dsp_core

The verified core of a deterministic TR-606-style drum engine, written in Verus.

`src/` holds everything the engine decides with integers and bytes, each
function with a proved contract:

- `voice` — the seven voices, their wire ids, scheduled hits, single-voice
  event filtering;
- `rng` — the SplitMix64 stream, with its closed form and the injectivity of
  its mix (distinct seeds never agree; no output repeats within 2^64 draws);
- `protocol` — the 8-byte control frames and the decoder of message batches;
- `scheduler` — the sorted, bounded event queue, the sample clock and the
  outbox of `VoiceFired` frames;
- `offline` — block partitioning of offline renders;
- `cli` — the render tool's command line, voice names, event lists and
  sidecar file names;
- `wav` — the byte layout of 32-bit float WAV files.

`app/` is the floating-point synthesis (resonators, envelopes, excitation,
bus saturation), the `render` program's file and JSON handling, and the
`wasm-bindgen` shell, all driven through the library above.
