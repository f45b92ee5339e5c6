use vstd::prelude::*;

verus! {

/// A violation that a specific peer committed.
#[derive(Debug, Clone)]
pub struct PeerError {
    pub message: &'static str,
}

/// An event could not be handed to the event log.
#[derive(Debug, Clone)]
pub struct LogError {
    pub message: &'static str,
}

/// The statistics exporter failed.
#[derive(Debug, Clone)]
pub struct StatsExporterError {
    pub message: &'static str,
}

/// A message that the connection's role or state forbids; the connection closes.
#[derive(Debug, Clone)]
pub struct UnwantedMessageError {
    pub message: String,
}

/// Why a message handler failed.
#[derive(Debug, Clone)]
pub enum HandlerError {
    Peer(PeerError),
    Log(LogError),
    StatsExporter(StatsExporterError),
    Unwanted(UnwantedMessageError),
    /// A message too large to go in one frame.
    FrameTooLarge,
}

} // verus!
