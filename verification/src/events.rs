//! Messages exchanged between the GUI and the connection manager.
use std::time::Instant;
use vstd::prelude::*;

verus! {

#[verifier::external_type_specification]
#[verifier::external_body]
pub struct ExInstant(Instant);

/// Serial port information ready for display in the UI.
#[derive(Debug, Clone)]
pub struct PortInfo {
    pub name: String,
    /// Empty if unavailable.
    pub description: String,
}

/// Commands sent from the GUI to the connection manager.
#[derive(Debug)]
pub enum ConnCmd {
    /// Port name, baud rate.
    Connect(String, u32),
    Disconnect,
}

/// Events sent from the connection manager to the GUI.
#[derive(Debug)]
pub enum AppEvent {
    /// One burst of raw audio samples, timestamped at arrival.
    Samples { raw: Vec<i16>, arrived_at: Instant },
    /// Error message to display in the toolbar.
    Error(String),
    /// The connection manager opened the port.
    Connected,
    /// The connection manager closed the port (commanded or on error).
    Disconnected,
    /// Result of an asynchronous port scan.
    PortsAvailable(Vec<PortInfo>),
    /// A WAV file was finalised (file name only, not the full path).
    WavSaved(String),
}

} // verus!
