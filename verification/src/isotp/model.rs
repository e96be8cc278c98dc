//! What each event does to the link, as mathematics.

use vstd::prelude::*;

use crate::bytes::write_at;
use crate::error::ErrorCode;
use crate::isotp::frames::{
    Id, Output, State, Upcall, Vars, CF_DATA, FF_DATA, FRAME_LEN, FS_CTS, FS_OVFLW,
    FS_WAIT, MAX_MESSAGE_LEN, N_BS_MS, N_CR_MS, PCI_CF, PCI_FC, PCI_FF, PCI_SF, RX_BLOCK_SIZE,
    RX_STMIN, SF_MAX,
};

verus! {

/// A frame: what is given, and zeros after it.
pub open spec fn frame(bytes: Seq<u8>) -> Seq<u8> {
    Seq::new(
        FRAME_LEN as nat,
        |i: int|
            if i < bytes.len() {
                bytes[i]
            } else {
                0
            },
    )
}

/// The frame that carries a whole short message.
pub open spec fn single_frame(message: Seq<u8>) -> Seq<u8> {
    frame(seq![(PCI_SF * 16 + message.len()) as u8] + message)
}

/// The frame that opens a long message.
pub open spec fn first_frame(message: Seq<u8>) -> Seq<u8> {
    frame(
        seq![
            (PCI_FF * 16 + message.len() as int / 256) as u8,
            (message.len() as int % 256) as u8,
        ] + message.take(FF_DATA as int),
    )
}

/// A frame in the middle or at the end of a long message.
pub open spec fn consecutive_frame(sequence: int, bytes: Seq<u8>) -> Seq<u8> {
    frame(seq![(PCI_CF * 16 + sequence) as u8] + bytes)
}

/// A flow control frame.
pub open spec fn flow_control(status: u8) -> Seq<u8> {
    frame(seq![(PCI_FC * 16 + status) as u8, RX_BLOCK_SIZE, RX_STMIN])
}

/// What kind of frame this is: the upper half of its first byte.
pub open spec fn kind(data: Seq<u8>) -> int {
    data[0] as int / 16
}

/// The lower half of the first byte of a frame.
pub open spec fn low(data: Seq<u8>) -> int {
    data[0] as int % 16
}

/// The message length that a first frame announces.
pub open spec fn announced(data: Seq<u8>) -> int {
    low(data) * 256 + data[1]
}

/// A separation time in milliseconds. 0x01..0x7F is milliseconds; 0xF1..0xF9
/// is 100..900 us, rounded up to one millisecond; the rest is reserved.
pub open spec fn separation_ms(value: u8) -> u32 {
    if 0x01 <= value <= 0x7F {
        value as u32
    } else if 0xF1 <= value <= 0xF9 {
        1
    } else {
        0
    }
}

/// The link's state.
#[verifier::ext_equal]
pub struct IsoTpModel {
    pub vars: Vars,
    /// The buffer that a message is assembled into, and the message being
    /// sent.
    pub rx_buffer: Option<Seq<u8>>,
    pub tx_buffer: Option<Seq<u8>>,
    /// A frame that goes out as soon as the driver is done with the one it
    /// has.
    pub waiting: Option<Seq<u8>>,
}

/// A state and what is asked for on reaching it.
pub type Outcome = (IsoTpModel, Output<Seq<u8>, Seq<u8>>);

/// Nothing to do.
pub open spec fn quiet() -> Output<Seq<u8>, Seq<u8>> {
    Output { disarm: false, send: None, arm: None, upcall: None }
}

impl IsoTpModel {
    /// A link with nothing in flight.
    pub open spec fn init(rx_id: Id, tx_id: Id) -> IsoTpModel {
        IsoTpModel {
            vars: Vars {
                rx_id,
                tx_id,
                state: State::Idle,
                frame_idle: true,
                rx_frame_idle: true,
                rx_len: 0,
                rx_offset: 0,
                rx_next_sn: 1,
                tx_len: 0,
                tx_offset: 0,
                tx_next_sn: 1,
                tx_block_remaining: 0,
                tx_block_size: 0,
                tx_stmin_ms: 0,
            },
            rx_buffer: None,
            tx_buffer: None,
            waiting: None,
        }
    }

    /// Is a transmission in progress?
    pub open spec fn transmitting(self) -> bool {
        match self.vars.state {
            State::TxWaitFlowControl | State::TxSending | State::TxSeparation => true,
            _ => false,
        }
    }

    /// What holds between any two events.
    pub open spec fn wf(self) -> bool {
        &&& self.vars.rx_next_sn < 16
        &&& self.vars.tx_next_sn < 16
        &&& self.transmitting() <==> self.tx_buffer is Some
        &&& self.transmitting() ==> {
            &&& self.vars.tx_offset <= self.vars.tx_len <= self.tx_buffer->0.len()
            &&& self.vars.tx_len <= MAX_MESSAGE_LEN
            &&& self.vars.state !is TxSending ==> self.vars.tx_offset < self.vars.tx_len
        }
        &&& self.vars.state is RxAssembling ==> {
            &&& self.rx_buffer is Some
            &&& self.vars.rx_offset <= self.rx_buffer->0.len()
            &&& self.vars.rx_len <= self.rx_buffer->0.len()
        }
        &&& self.waiting is Some ==> !self.vars.frame_idle && self.vars.state !is TxSeparation
    }

    /// Ask for a frame to be sent: now, if the scratch frame is here, or as
    /// soon as the driver is done with it.
    pub open spec fn send_frame(self, data: Seq<u8>) -> Outcome {
        if self.vars.frame_idle {
            (
                IsoTpModel { vars: Vars { frame_idle: false, ..self.vars }, ..self },
                Output { send: Some(data), ..quiet() },
            )
        } else {
            (IsoTpModel { waiting: Some(data), ..self }, quiet())
        }
    }

    /// The transmission is over, and nothing of it is left to go out.
    pub open spec fn finish_transmit(self, result: Result<(), ErrorCode>) -> Outcome {
        (
            IsoTpModel {
                vars: Vars { state: State::Idle, ..self.vars },
                tx_buffer: None,
                waiting: None,
                ..self
            },
            Output {
                disarm: true,
                upcall: match self.tx_buffer {
                    Some(buffer) => Some(Upcall::Transmitted { buffer, result }),
                    None => None,
                },
                ..quiet()
            },
        )
    }

    /// The reception is over, and nothing of it is left to be answered.
    pub open spec fn finish_receive(self, len: usize, result: Result<(), ErrorCode>) -> Outcome {
        (
            IsoTpModel {
                vars: Vars { state: State::Idle, rx_offset: 0, rx_len: 0, ..self.vars },
                rx_buffer: None,
                waiting: None,
                ..self
            },
            Output {
                disarm: true,
                upcall: match self.rx_buffer {
                    Some(buffer) => Some(Upcall::Received { buffer, len, result }),
                    None => None,
                },
                ..quiet()
            },
        )
    }

    /// Send the next consecutive frame of the message being transmitted.
    pub open spec fn send_consecutive(self) -> Outcome {
        let offset = self.vars.tx_offset as int;
        let left = self.vars.tx_len - offset;
        let take = if left <= CF_DATA {
            left
        } else {
            CF_DATA as int
        };
        let bytes = match self.tx_buffer {
            Some(buffer) => buffer.subrange(offset, offset + take),
            None => Seq::empty(),
        };
        IsoTpModel {
            vars: Vars {
                state: State::TxSending,
                tx_offset: (offset + take) as usize,
                tx_next_sn: ((self.vars.tx_next_sn + 1) % 16) as u8,
                tx_block_remaining: if self.vars.tx_block_size != 0
                    && self.vars.tx_block_remaining > 0 {
                    (self.vars.tx_block_remaining - 1) as u8
                } else {
                    self.vars.tx_block_remaining
                },
                ..self.vars
            },
            ..self
        }.send_frame(consecutive_frame(self.vars.tx_next_sn as int, bytes))
    }

    // -- Requests -----------------------------------------------------------

    /// Will a message of `len` bytes in `buffer` be taken for transmission?
    pub open spec fn transmit_error(self, buffer: Seq<u8>, len: usize) -> Option<ErrorCode> {
        if self.vars.state !is Idle {
            Some(ErrorCode::BUSY)
        } else if len > MAX_MESSAGE_LEN || len > buffer.len() {
            Some(ErrorCode::SIZE)
        } else {
            None
        }
    }

    /// Send the first `len` bytes of `buffer` as one message.
    pub open spec fn transmit_message(self, buffer: Seq<u8>, len: usize) -> Outcome {
        let message = buffer.take(len as int);
        let first = if len <= SF_MAX {
            len
        } else {
            FF_DATA
        };
        let started = IsoTpModel {
            vars: Vars {
                tx_len: len,
                tx_offset: first,
                tx_next_sn: 1,
                state: if len <= SF_MAX {
                    State::TxSending
                } else {
                    State::TxWaitFlowControl
                },
                ..self.vars
            },
            tx_buffer: Some(buffer),
            ..self
        };
        if len <= SF_MAX {
            started.send_frame(single_frame(message))
        } else {
            let (next, output) = started.send_frame(first_frame(message));
            (next, Output { arm: Some(N_BS_MS), ..output })
        }
    }

    /// Provide the buffer that incoming messages are assembled into.
    pub open spec fn receive_message(self, buffer: Seq<u8>) -> IsoTpModel {
        IsoTpModel {
            vars: Vars { rx_offset: 0, rx_len: 0, ..self.vars },
            rx_buffer: Some(buffer),
            ..self
        }
    }

    // -- Frames -------------------------------------------------------------

    /// Is there a buffer that a message of `len` bytes can go into? Half
    /// duplex: while this end transmits, there is none.
    pub open spec fn has_room(self, len: int) -> bool {
        !self.transmitting() && match self.rx_buffer {
            Some(buffer) => len <= buffer.len(),
            None => false,
        }
    }

    pub open spec fn handle_single_frame(self, data: Seq<u8>) -> Outcome {
        let len = low(data);
        if len == 0 || len > SF_MAX || !self.has_room(len) {
            (self, quiet())
        } else {
            IsoTpModel {
                rx_buffer: Some(write_at(self.rx_buffer->0, 0, data.subrange(1, 1 + len))),
                ..self
            }.finish_receive(len as usize, Ok(()))
        }
    }

    pub open spec fn handle_first_frame(self, data: Seq<u8>) -> Outcome {
        let len = announced(data);
        if len == 0 || !self.has_room(len) {
            if self.transmitting() && !self.vars.frame_idle {
                // What goes out next belongs to the message being sent.
                (self, quiet())
            } else {
                self.send_frame(flow_control(FS_OVFLW))
            }
        } else {
            let (next, output) = IsoTpModel {
                vars: Vars {
                    rx_len: len as usize,
                    rx_offset: FF_DATA,
                    rx_next_sn: 1,
                    state: State::RxAssembling,
                    ..self.vars
                },
                rx_buffer: Some(write_at(self.rx_buffer->0, 0, data.subrange(2, 8))),
                ..self
            }.send_frame(flow_control(FS_CTS));
            (next, Output { arm: Some(N_CR_MS), ..output })
        }
    }

    /// Does this first frame carry more than the buffer holds? It does where it
    /// announces less than it carries, and the buffer is as short as that.
    pub open spec fn first_overruns(self, data: Seq<u8>) -> bool {
        &&& 0 < announced(data)
        &&& self.has_room(announced(data))
        &&& self.rx_buffer->0.len() < FF_DATA
    }

    /// Does this consecutive frame come after more than was announced? It does
    /// where the first frame announced less than it carried.
    pub open spec fn consecutive_overruns(self, data: Seq<u8>) -> bool {
        &&& self.vars.state is RxAssembling
        &&& low(data) == self.vars.rx_next_sn
        &&& self.vars.rx_len < self.vars.rx_offset
    }

    /// A frame that the link must not be given. No sender that keeps to the
    /// standard produces one: a message that short goes into a single frame.
    pub open spec fn overruns(self, id: Id, data: Seq<u8>, ok: bool) -> bool {
        ok && id == self.vars.rx_id && if kind(data) == PCI_FF {
            self.first_overruns(data)
        } else {
            kind(data) == PCI_CF && self.consecutive_overruns(data)
        }
    }

    pub open spec fn handle_consecutive_frame(self, data: Seq<u8>) -> Outcome {
        let offset = self.vars.rx_offset as int;
        let left = self.vars.rx_len - offset;
        let take = if left <= CF_DATA {
            left
        } else {
            CF_DATA as int
        };
        if self.vars.state !is RxAssembling {
            (self, quiet())
        } else if low(data) != self.vars.rx_next_sn {
            // A gap means frames were lost; the assembled message would
            // otherwise be silently wrong.
            self.finish_receive(0, Err(ErrorCode::FAIL))
        } else {
            let next = IsoTpModel {
                vars: Vars {
                    rx_next_sn: ((low(data) + 1) % 16) as u8,
                    rx_offset: (offset + take) as usize,
                    ..self.vars
                },
                rx_buffer: Some(
                    write_at(self.rx_buffer->0, offset, data.subrange(1, 1 + take)),
                ),
                ..self
            };
            if offset + take >= self.vars.rx_len {
                next.finish_receive(self.vars.rx_len, Ok(()))
            } else {
                (next, Output { arm: Some(N_CR_MS), ..quiet() })
            }
        }
    }

    pub open spec fn handle_flow_control(self, data: Seq<u8>) -> Outcome {
        if self.vars.state !is TxWaitFlowControl {
            (self, quiet())
        } else if low(data) == FS_CTS && self.waiting is Some {
            // The first frame is not out yet, so this answers something else.
            (self, quiet())
        } else if low(data) == FS_CTS {
            let (next, output) = IsoTpModel {
                vars: Vars {
                    tx_block_size: data[1],
                    tx_block_remaining: data[1],
                    tx_stmin_ms: separation_ms(data[2]),
                    ..self.vars
                },
                ..self
            }.send_consecutive();
            (next, Output { disarm: true, ..output })
        } else if low(data) == FS_WAIT {
            // The receiver is not ready yet; keep waiting.
            (self, Output { arm: Some(N_BS_MS), ..quiet() })
        } else {
            // Overflow, or a reserved status: the message cannot be
            // delivered.
            self.finish_transmit(Err(ErrorCode::FAIL))
        }
    }

    // -- Events -------------------------------------------------------------

    /// A frame arrived with identifier `id`.
    pub open spec fn frame_received(self, id: Id, data: Seq<u8>, ok: bool) -> Outcome {
        if !ok || id != self.vars.rx_id {
            // A mismatched identifier must never be assembled into a message.
            (self, quiet())
        } else if kind(data) == PCI_SF {
            self.handle_single_frame(data)
        } else if kind(data) == PCI_FF {
            self.handle_first_frame(data)
        } else if kind(data) == PCI_CF {
            self.handle_consecutive_frame(data)
        } else if kind(data) == PCI_FC {
            self.handle_flow_control(data)
        } else {
            (self, quiet())
        }
    }

    /// The CAN driver would not take a frame and gave the scratch frame back.
    pub open spec fn send_refused(self) -> Outcome {
        IsoTpModel { vars: Vars { frame_idle: true, ..self.vars }, ..self }.finish_transmit(
            Err(ErrorCode::FAIL),
        )
    }

    /// Send the frame that waits, if there is one.
    pub open spec fn send_waiting(self) -> Outcome {
        match self.waiting {
            Some(data) => IsoTpModel { waiting: None, ..self }.send_frame(data),
            None => (self, quiet()),
        }
    }

    /// The CAN driver is done with a frame.
    pub open spec fn transmit_complete(self, ok: bool) -> Outcome {
        let back = IsoTpModel { vars: Vars { frame_idle: true, ..self.vars }, ..self };
        if !ok {
            if self.vars.state !is Idle && self.tx_buffer is Some {
                back.finish_transmit(Err(ErrorCode::FAIL))
            } else {
                back.send_waiting()
            }
        } else if self.waiting is Some {
            back.send_waiting()
        } else if self.vars.state !is TxSending {
            // What went out was a flow control or first frame.
            (back, quiet())
        } else if self.vars.tx_offset >= self.vars.tx_len {
            back.finish_transmit(Ok(()))
        } else if self.vars.tx_block_size != 0 && self.vars.tx_block_remaining == 0 {
            // The receiver must authorise the next block.
            (
                IsoTpModel {
                    vars: Vars { state: State::TxWaitFlowControl, ..back.vars },
                    ..back
                },
                Output { arm: Some(N_BS_MS), ..quiet() },
            )
        } else if self.vars.tx_stmin_ms > 0 {
            (
                IsoTpModel { vars: Vars { state: State::TxSeparation, ..back.vars }, ..back },
                Output { arm: Some(self.vars.tx_stmin_ms), ..quiet() },
            )
        } else {
            back.send_consecutive()
        }
    }

    /// The alarm went off.
    pub open spec fn alarm(self) -> Outcome {
        match self.vars.state {
            State::TxSeparation => self.send_consecutive(),
            State::TxWaitFlowControl => self.finish_transmit(Err(ErrorCode::FAIL)),
            State::RxAssembling => self.finish_receive(0, Err(ErrorCode::FAIL)),
            _ => (self, quiet()),
        }
    }
}

} // verus!
