//! Protocol engine for uploading a firmware image to a USB audio peripheral.
//!
//! The engine covers the on-wire command and status frame formats, the
//! firmware image header, the packetization of payloads into fixed-size
//! transport packets, the validation of each command/status exchange, and
//! the sequencing of a complete upload.  The transport itself (bulk USB
//! reads and writes) is a collaborator supplied by the caller: this crate
//! computes every byte that goes out and checks every byte that comes in,
//! but performs no I/O.

pub mod wire;
pub mod header;
pub mod protocol;
pub mod driver;

pub use header::Header;
pub use header::Version;
pub use protocol::Command;
pub use protocol::Error;
pub use protocol::Response;
pub use protocol::internal::Status;
pub use driver::Exchange;
pub use driver::Upload;
pub use driver::UploadStep;
