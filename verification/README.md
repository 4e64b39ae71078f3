# ai_local_runtime

A hardware-aware control plane for local AI inference engines (llama.cpp),
written in Verus. The library in `src/` holds the decisions, each with a
contract that Verus proves:

- `gguf`: reading the planning metadata (architecture, layers, context and
  attention sizes) out of a GGUF header given as bytes, with the format's
  safety limits; `gguf_encoding` states the encoding and proves that a
  written header reads back, and that reading a prefix of a file answers as
  the whole file unless it runs out of bytes.
- `policy`: the `performance`, `balanced`, `battery` and `background`
  execution-profile policy with its battery override and thermal and memory
  guards, and the laws that it keeps.
- `backend`: which llama.cpp build a binary is, which binary to use, and the
  `llama-server` / `llama-bench` arguments for a profile.
- `probe`, `telemetry`: what `/proc`, `/sys` and `nvidia-smi` output say
  about the host.
- `model`: the host description and the hardware identity that ignores the
  order in which accelerators were found.
- `text`, `display`: character-level helpers and user-facing text.

`app/` is the `airuntime` program around the library: file, process,
network and database I/O, floating-point readings, and the command line.
