//! The tockloader protocol: reading, writing and erasing flash, the attribute
//! table, and where the kernel starts.
//!
//! [`Bootloader`](server::Bootloader) serves the protocol; like the UDS server
//! it turns events into actions. [`BootloaderEnterer`](entry::BootloaderEnterer)
//! decides, before any of that, whether to stay at all. [`laws`] states what
//! the server promises as a whole, and [`commands`] what each command does, from
//! the command to the answer on the wire.

pub mod commands;
pub mod entry;
pub mod laws;
pub mod model;
pub mod protocol;
pub mod server;
