# ledaw

The core of a small groovebox, verified with Verus.

- `src/` — the verified library:
  - `midi`: notes, note messages, the QWERTY-to-MIDI key map, and the player
    that turns a span of frames into note-on/note-off messages;
  - `synth`: voice allocation of the polyphonic synth (first silent voice,
    round-robin stealing);
  - `engine`: tracks, plugin chains, the transport and the recording state
    machine, and the per-block firing of sequenced notes;
  - `ui`: the navigation state machine of the interface (modes, screens,
    keyboard playing with transposition);
  - `plugin`: plugin kinds and their key handling;
  - `instrument::sampler`: sampler voice allocation and the 16-bit stereo
    PCM WAV reader;
  - `queue`: a ring-buffer FIFO queue and a bounded list;
  - `rng`: the SplitMix64 generator used to replay random key events.
- `app/` — the parts that do audio, drawing or floating point: a sine-wave
  demo (cpal + raylib), beat/frame conversions, the timeline's view state
  (visible beats and cursor, in floating point), and sample playback.
- `tests/` — tests of the library.
