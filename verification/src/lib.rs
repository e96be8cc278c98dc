//! The logic of a Tock bootloader.
//!
//! Two servers reprogram the board: [`uds`] over CAN and [`bootloader`], the
//! tockloader protocol, over a UART. [`isotp`] carries long messages over CAN.
//! [`board`] decides, with [`kernel_integrity`], [`kernel_slot`] and
//! [`gpbr_entry`], whether to stay in the bootloader or to start the kernel.
//!
//! Nothing here touches hardware. Each part takes an event and returns what is
//! to be done about it, and its contract says what that is in terms of a model
//! of its state. Laws, in proof functions of their own, say what follows for
//! whole exchanges. Those that speak of what is in flash rest on [`mod@flash`],
//! which says how the flash behaves.

pub mod actions;
pub mod board;
pub mod bootloader;
pub mod bytes;
pub mod can_transport;
pub mod crc;
pub mod dual_transport;
pub mod error;
pub mod flash;
pub mod flash_direct;
pub mod flash_router;
pub mod gpbr_entry;
pub mod isotp;
pub mod jumper;
pub mod kernel_integrity;
pub mod kernel_slot;
pub mod paging;
pub mod uart_transport;
pub mod uds;
