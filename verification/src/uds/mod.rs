//! A UDS (ISO 14229-1) server for reprogramming.
//!
//! Implements the subset a bootloader actually needs:
//!
//! ```text
//!   0x10  DiagnosticSessionControl   default / programming
//!   0x11  ECUReset                   hard reset
//!   0x22  ReadDataByIdentifier       identification DIDs
//!   0x27  SecurityAccess             seed / key
//!   0x2E  WriteDataByIdentifier
//!   0x31  RoutineControl             erase memory, check memory
//!   0x34  RequestDownload
//!   0x35  RequestUpload
//!   0x36  TransferData               carries data either way
//!   0x37  RequestTransferExit
//!   0x3E  TesterPresent
//! ```
//!
//! The server is an event-to-action machine; see [`crate::actions`]. The link
//! owns a single message buffer, so a long operation goes: send 0x78 "response
//! pending", get the buffer back from the transmit completion, run the
//! operation, send the final response with the same buffer.
//!
//! [`model`] says what every event does, and [`server`] is the code that does
//! it. [`laws`] states what holds of every event, and [`exchanges`] what whole
//! exchanges with a tester leave in flash. [`answers`] and [`programming`] say
//! the same from a tester's side: from the bytes of a request to the bytes that
//! go back and to the flash.

pub mod answers;
pub mod codes;
pub mod exchanges;
pub mod laws;
pub mod model;
pub mod programming;
pub mod server;
