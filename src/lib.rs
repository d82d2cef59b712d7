//! Driver for UHF RFID reader modules that speak a framed binary protocol
//! over a byte-stream transport such as a UART or a serial port.
//!
//! The driver builds checksummed command frames, validates and decodes the
//! module's answers, and reassembles the stream of frames the module sends
//! while polling continuously. Every operation states in its contract the
//! frame it sends and what it returns for each answer.
pub mod clock;
pub mod frame;
pub mod hex;
pub mod poll;
pub mod reader;
pub mod response;
pub mod stream;
pub mod transport;
pub mod types;

pub use hex::bytes_to_hex;
pub use reader::UhfRfid;
pub use transport::RfidTransport;
pub use types::{
    LockAction, LockPayload, LockTarget, MemoryBank, QtControl, QueryParams, QuerySel,
    QuerySession, QueryTarget, Region, RfLinkProfile, SelectAction, SelectMode, SelectParams,
    SelectTarget, TagInfo, UhfError,
};
