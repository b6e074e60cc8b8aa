//! Per-request logging for HTTP servers: a byte-safe text encoder that turns
//! arbitrary byte sequences into one printable, escaped token, and a request
//! log record that guarantees a single well-formed line is emitted exactly
//! once, even when the caller never logs it explicitly.

pub mod text;
pub mod ext;
pub mod escaped;
pub mod remote;
pub mod display;
pub mod sink;
pub mod record;

pub use escaped::Escaped;
pub use remote::RemoteAddr;
pub use display::LogDisplay;
pub use sink::LogSink;
pub use sink::VecSink;
pub use sink::WriteError;
pub use record::LogRequest;
