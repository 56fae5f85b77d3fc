# monitor

A verified core for a display-streaming server: a scene of layers composited onto a
canvas, the encoder and capture command lines, the display registry, and the decisions of
the control interface.

- `src/` is the library, checked by Verus: `frame` (pixel buffers and clipped copies),
  `scene` (layers kept stably sorted by z-index), `compositor` (painting a scene),
  `source` (source descriptions, the image source and its decoding, capture arguments,
  whole-frame reads),
  `encoder` (encoder arguments and the restart watchdog), `display` (display registry and
  output indices), `api` (requests, answers and handler decisions), `config` (preset
  kinds), `process` and `text` (decimal rendering and small string helpers).
- `app/` is the server around it: HTTP handlers, capture and encoder processes, threads,
  Win32 display enumeration, file reading and configuration loading.
- `tests/` exercises the library on concrete values.
