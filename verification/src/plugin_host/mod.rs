//! Local plugin processes: their lifecycle, what they announce when they
//! connect, and which of them receive which events.
pub mod runtime;
pub mod routing;
pub mod framing;
