# lumiere_agent

The verified core of the Lumiere remote-support agent, written in Verus.

- `src/` is the library. Each module holds one concern of the agent and
  states its behaviour in `requires`/`ensures` contracts over `Seq`,
  `Option` and integer models; the `law_*` proof functions state the
  properties that hold across calls (fail-closed privacy blurring, H.264
  parameter sets leading a frame, file chunks decoding back to the file,
  upload caps, settings clamped into range, and so on).
- `tests/` runs the library on concrete values.
- `app/` is the host side: environment and `.env.local` lookups, the file
  system and processes, the JSON wire formats (serde copies of the library's
  types), and the floating-point tuning that the library does not hold.

- `app/dispatch.rs` runs a session's signals and input-channel messages
  through the library's decisions; the peer connection itself comes from the
  WebRTC stack, which plugs in through the `MediaPeer` and
  `InputChannelHost` traits.
