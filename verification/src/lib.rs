//! Host-side signal logic for a DFSDM microphone streamed over UART:
//! the sync-framed wire protocol, the Q14 high-pass filter, and the
//! connection and display decisions of the visualiser.
pub mod hpf;
pub mod serial_reader;
pub mod events;
pub mod toolbox;
pub mod connection_manager;
pub mod viewer;
