//! Verified core of the serial telemetry companion: the text the tools
//! print, the decisions of the serial reader and the bounded history
//! that the dashboard serves.

pub mod history;
pub mod sinks;
pub mod telemetry;
pub mod text;
