//! Frames, and the bookkeeping types of the link.

use vstd::prelude::*;

use crate::error::ErrorCode;

verus! {

/// Bytes carried by a classic CAN frame.
pub const FRAME_LEN: usize = 8;
/// Payload bytes in a single frame (one control byte).
pub const SF_MAX: usize = 7;
/// Payload bytes in a first frame (two control bytes).
pub const FF_DATA: usize = 6;
/// Payload bytes in a consecutive frame (one control byte).
pub const CF_DATA: usize = 7;

/// Largest message expressible without the 2016 escape encoding.
pub const MAX_MESSAGE_LEN: usize = 4095;

// The upper half of the first byte of a frame says what it is.
pub const PCI_SF: u8 = 0;
pub const PCI_FF: u8 = 1;
pub const PCI_CF: u8 = 2;
pub const PCI_FC: u8 = 3;

// Flow status.
pub const FS_CTS: u8 = 0;
pub const FS_WAIT: u8 = 1;
pub const FS_OVFLW: u8 = 2;

/// Flow control this end grants as receiver.
pub const RX_BLOCK_SIZE: u8 = 0;
pub const RX_STMIN: u8 = 0;

/// Sender waiting for a flow control frame, milliseconds (N_Bs).
pub const N_BS_MS: u32 = 1000;
/// Receiver waiting for the next consecutive frame, milliseconds (N_Cr).
pub const N_CR_MS: u32 = 1000;

/// A CAN identifier. The two formats are apart on the bus: identifiers of
/// different formats are different, whatever their numbers.
#[derive(Copy, Clone, PartialEq, Eq, Structural)]
pub enum Id {
    Standard(u16),
    Extended(u32),
}

/// What the link is doing.
#[derive(Copy, Clone)]
pub enum State {
    /// Nothing in flight. A reception may start at any time.
    Idle,
    /// Received a first frame; collecting consecutive frames.
    RxAssembling,
    /// Sent a first frame or finished a block; waiting for flow control.
    TxWaitFlowControl,
    /// Clear to send; a frame is with the CAN driver, and the next one goes
    /// out when it is done.
    TxSending,
    /// Holding off for the separation time the receiver asked for.
    TxSeparation,
}

/// Everything the link remembers besides its buffers.
#[derive(Copy, Clone)]
pub struct Vars {
    pub rx_id: Id,
    pub tx_id: Id,
    pub state: State,
    /// Is the scratch frame here, or with the CAN driver?
    pub frame_idle: bool,
    /// Is the reception frame here, or with the CAN driver?
    pub rx_frame_idle: bool,
    /// How long the message being assembled is, and how much has arrived.
    pub rx_len: usize,
    pub rx_offset: usize,
    pub rx_next_sn: u8,
    /// How long the message being sent is, and how much has gone out.
    pub tx_len: usize,
    pub tx_offset: usize,
    pub tx_next_sn: u8,
    /// Frames still allowed in this block; a block size of 0 means unlimited.
    pub tx_block_remaining: u8,
    pub tx_block_size: u8,
    pub tx_stmin_ms: u32,
}

/// A completed message, handed to whoever uses the link.
pub enum Upcall<B> {
    Transmitted { buffer: B, result: Result<(), ErrorCode> },
    Received { buffer: B, len: usize, result: Result<(), ErrorCode> },
}

/// What the link asks for, to be done in this order.
pub struct Output<F, B> {
    /// Stop the alarm.
    pub disarm: bool,
    /// Send this frame.
    pub send: Option<F>,
    /// Set the alarm this many milliseconds ahead.
    pub arm: Option<u32>,
    /// Hand this up.
    pub upcall: Option<Upcall<B>>,
}

impl View for Upcall<Vec<u8>> {
    type V = Upcall<Seq<u8>>;

    open spec fn view(&self) -> Upcall<Seq<u8>> {
        match *self {
            Upcall::Transmitted { buffer, result } => Upcall::Transmitted {
                buffer: buffer@,
                result,
            },
            Upcall::Received { buffer, len, result } => Upcall::Received {
                buffer: buffer@,
                len,
                result,
            },
        }
    }
}

impl View for Output<[u8; 8], Vec<u8>> {
    type V = Output<Seq<u8>, Seq<u8>>;

    open spec fn view(&self) -> Output<Seq<u8>, Seq<u8>> {
        Output {
            disarm: self.disarm,
            send: match self.send {
                Some(frame) => Some(frame@),
                None => None,
            },
            arm: self.arm,
            upcall: match self.upcall {
                Some(upcall) => Some(upcall@),
                None => None,
            },
        }
    }
}

/// The number of an identifier, whatever its format.
pub open spec fn raw_of(id: Id) -> u32 {
    match id {
        Id::Standard(v) => v as u32,
        Id::Extended(v) => v,
    }
}

/// The number of an identifier, whatever its format.
pub fn id_raw(id: Id) -> (raw: u32)
    ensures
        raw == raw_of(id),
{
    match id {
        Id::Standard(v) => v as u32,
        Id::Extended(v) => v,
    }
}

/// The number of an identifier is the number it was made with.
pub proof fn law_number_of_an_identifier(short: u16, long: u32)
    ensures
        raw_of(Id::Standard(short)) == short,
        raw_of(Id::Extended(long)) == long,
{
}

} // verus!
