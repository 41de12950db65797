# NoiseGate

Real-time noise cancellation for a microphone, on Windows. The microphone is
recorded in shared mode, cleaned by a denoiser, and played into a virtual audio
cable, where other programs pick it up as a microphone of its own.

- `src/` is the core, verified with [Verus](https://github.com/verus-lang/verus):
  how ragged device buffers become 480-sample frames, how a stream is resampled
  without drifting, which devices are opened and when none is, when a stalled
  stream is restarted, how a streaming model is driven, what the tray and the
  command line do. Contracts say what each function returns and changes; the
  `law_` functions state what holds of several of them together.
- `app/` is the program around it: WASAPI, the tray, files, the threads, and the
  arithmetic on floating-point samples, which the core takes as parameters.
- `tests/` runs the core on concrete values.

What the core trusts of other crates stands in small functions marked
`external_body`, each with what it claims of the outside call, which of the
clock and of the machine's paths is nothing: the rings
(`heap_ring.rs`), the user's directory for settings and the platform's path
separator (`paths.rs`), the clock
(`denoiser.rs`), debug formatting (`pipeline.rs`), sorting (`offline.rs`) and
appending to a string (`text.rs`).
