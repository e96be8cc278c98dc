//! ISO-TP (ISO 15765-2) link for the bootloader.
//!
//! Carries messages larger than a CAN frame by splitting them into a First
//! Frame plus Consecutive Frames, with the receiver granting permission to
//! send through Flow Control frames.
//!
//! ```text
//!   single frame      0x0L data...              L <= 7
//!   first frame       0x1H LL data...           length = HLL, 12 bits
//!   consecutive frame 0x2S data...              S = sequence number, wraps 0..15
//!   flow control      0x3F BS STmin             F = 0 clear-to-send, 1 wait, 2 overflow
//! ```
//!
//! Scope is deliberately narrow, because the bootloader is strictly
//! request/response over one pair of identifiers:
//!
//! * One connection. There is no addressing extension and no support for
//!   several concurrent conversations.
//! * Half duplex. A transmission is refused while a reception is in progress
//!   and vice versa.
//! * Classic CAN only, so a consecutive frame carries 7 bytes.
//! * One frame at a time goes to the driver. A frame that is due while the
//!   driver has another waits for it; only the overflow that turns a first
//!   frame down in the middle of a transmission is left out then.
//!
//! As receiver this grants `BS = 0` and `STmin = 0`: send the whole message
//! without waiting for further flow control. The bootloader assembles a
//! complete message before touching flash, so there is nothing to push back
//! against.

pub mod frames;
pub mod laws;
pub mod link;
pub mod model;
pub mod wire;
