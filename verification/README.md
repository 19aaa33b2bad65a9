# dfsdm-viz

Host-side tools for a DFSDM MEMS microphone that streams audio over UART.

Wire format of one burst: the sync word `AA 55 AA 55` followed by 1024
little-endian int16 samples (2048 bytes).

Layout:

- `src/` — the verified library (Verus):
  - `serial_reader` — sync-frame parser, with the streaming, round-trip,
    noise and resynchronisation laws of the wire format;
  - `hpf` — the Q14 first-order high-pass filter and its laws;
  - `connection_manager` — the connection state machine (decisions only)
    and the port description rule;
  - `viewer` — port selection after a rescan, port labels, sample rate,
    history depth and recording file names;
  - `toolbox` — display-mode decisions of the analysis panel;
  - `events` — messages between the GUI and the connection manager.
- `app/` — the egui desktop program: serial-port and channel I/O, WAV
  recording, and the floating-point analysis and plotting.
- `tests/` — tests of the library.
