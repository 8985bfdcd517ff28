# djimic

The decision logic of a desktop companion for DJI wireless microphone
receivers, verified with Verus.

- `src/` is the library. It holds the settings-file hook registration for the
  coding CLI, the loopback permission endpoint's request reading, queue and
  answers, the pie-menu overlay's state, mic-tap detection, feedback and
  retraining rules, the tray's decisions, the pairing-button and volume-guard
  state, and the stand-alone detection tool's collection plan. Every function
  carries a contract, and the laws the app promises (installing is
  idempotent and reversible, also through the settings file it writes, only
  our hooks change, detection debounces and
  yields to speech, and more) are proof functions.
- `tests/` runs the library on concrete values.
- `app/` is the Tauri desktop app and the detection test tool around it:
  windows, sockets, files, audio, Win32 and the floating-point signal
  processing and model training.
