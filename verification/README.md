# turbohex

An interactive terminal hex viewer with a decode panel, built around a
library verified with Verus.

- `src/` is the verified library: the built-in decoders (integers, bits,
  timestamps, strings, byte statistics), the JSON protocol spoken with WASM
  decoder plugins, the running of WASM plugins through `wasmtime` and of Lua
  scripts through `mlua`, the viewer state with its handling of every key and
  of the mouse wheel, search, and the styled text of every part of the screen
  (hex rows, decode and stats panels, status bar, popups).
- `app/` is the program around it: command line, file loading, finding and
  reading plugins on disk, the floating point readings (entropy, `f32`/`f64`),
  and drawing with `ratatui` in a `crossterm` terminal.
- `tests/` exercises the library on concrete inputs.
