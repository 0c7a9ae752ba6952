# audio_io

Real-time audio capture and playback (48 kHz voice by default) with resampling, ring buffers,
a playback mixer, an AEC → NS session pipeline and an Opus codec.

- `src/` is the verified library (Verus). It holds everything that decides or moves data
  without touching a device or a float: framing of captured samples (`stream`), the ring
  buffers between audio callbacks and tasks (`stream`), the channel grouping and replication of
  the sample converters (`converter`), the mixer's per-source queues and settings (`mixer`), the
  echo-canceller reference history (`pipeline`), the session, device and mixer state machines
  (`session`, `control`, `mixer`), device lookup by name (`utils`), resampler fallback rules
  (`resampler`) and the codec's rate validation and stream framing (`codec`). Sample types are
  generic: the library is used with `f32`, `i16` and `u16` samples.
- `app/` holds the parts that talk to devices (`cpal`), run tokio tasks, do floating-point sample
  arithmetic (volume, averaging, mixing, echo suppression, noise gating), resample (`rubato`) and
  encode (`audiopus`), built on the library.
- `tests/` exercises the library on concrete values.
