//! The link itself.

use vstd::prelude::*;

use crate::actions::held;
use crate::bytes::{copy_into, write_at};
use crate::error::ErrorCode;
use crate::isotp::frames::{
    Id, Output, State, Upcall, Vars, CF_DATA, FF_DATA, FRAME_LEN, FS_CTS, FS_OVFLW,
    FS_WAIT, MAX_MESSAGE_LEN, N_BS_MS, N_CR_MS, PCI_CF, PCI_FC, PCI_FF, PCI_SF, RX_BLOCK_SIZE,
    RX_STMIN, SF_MAX,
};
use crate::isotp::model::{first_frame, flow_control, frame, quiet, single_frame, IsoTpModel};

verus! {

/// Nothing to do.
fn nothing() -> (output: Output<[u8; 8], Vec<u8>>)
    ensures
        output@ == quiet(),
{
    Output { disarm: false, send: None, arm: None, upcall: None }
}

/// A frame of `head` followed by `len` bytes of `source` from `from` on, and
/// zeros.
fn build_frame(head: &[u8], source: &[u8], from: usize, len: usize) -> (result: [u8; 8])
    requires
        head@.len() + len <= FRAME_LEN,
        from + len <= source@.len(),
    ensures
        result@ == frame(head@ + source@.subrange(from as int, from + len)),
{
    let mut result = [0u8; 8];
    let ghost bytes = head@ + source@.subrange(from as int, from + len);
    assert(source.len() == source@.len());
    let size: usize = head.len();
    let mut i: usize = 0;
    while i < FRAME_LEN
        invariant
            i <= FRAME_LEN,
            size == head@.len(),
            size + len <= FRAME_LEN,
            from + len <= source@.len() <= usize::MAX,
            bytes == head@ + source@.subrange(from as int, from + len),
            result@.len() == FRAME_LEN,
            forall|j: int| 0 <= j < i ==> result@[j] == frame(bytes)[j],
        decreases FRAME_LEN - i,
    {
        result[i] = if i < size {
            head[i]
        } else if i - size < len {
            source[from + (i - size)]
        } else {
            0
        };
        i = i + 1;
    }
    assert(result@ =~= frame(bytes));
    result
}

/// A flow control frame.
fn build_flow_control(status: u8) -> (result: [u8; 8])
    requires
        status < 16,
    ensures
        result@ == flow_control(status),
{
    let result = [PCI_FC * 16 + status, RX_BLOCK_SIZE, RX_STMIN, 0, 0, 0, 0, 0];
    assert(result@ =~= flow_control(status));
    result
}

/// One ISO-TP connection.
pub struct IsoTp {
    vars: Vars,
    rx_buffer: Option<Vec<u8>>,
    tx_buffer: Option<Vec<u8>>,
    waiting: Option<[u8; 8]>,
}

impl View for IsoTp {
    type V = IsoTpModel;

    closed spec fn view(&self) -> IsoTpModel {
        IsoTpModel {
            vars: self.vars,
            rx_buffer: held(self.rx_buffer),
            tx_buffer: held(self.tx_buffer),
            waiting: match self.waiting {
                Some(data) => Some(data@),
                None => None,
            },
        }
    }
}

impl IsoTp {
    pub fn new(rx_id: Id, tx_id: Id) -> (link: IsoTp)
        ensures
            link@ == IsoTpModel::init(rx_id, tx_id),
            link@.wf(),
    {
        IsoTp {
            vars: Vars {
                rx_id,
                tx_id,
                state: State::Idle,
                frame_idle: true,
                rx_frame_idle: true,
                rx_len: 0,
                rx_offset: 0,
                rx_next_sn: 1,
                tx_len: 0,
                tx_offset: 0,
                tx_next_sn: 1,
                tx_block_remaining: 0,
                tx_block_size: 0,
                tx_stmin_ms: 0,
            },
            rx_buffer: None,
            tx_buffer: None,
            waiting: None,
        }
    }

    /// The identifier this end transmits on.
    pub fn tx_id(&self) -> (id: Id)
        ensures
            id == self@.vars.tx_id,
    {
        self.vars.tx_id
    }

    /// Hand the reception frame to the CAN driver. Must succeed once the
    /// controller is enabled: without it the driver never hands a frame up.
    pub fn start_receive(&mut self) -> (result: Result<(), ErrorCode>)
        requires
            old(self)@.wf(),
        ensures
            result == if old(self)@.vars.rx_frame_idle {
                Ok::<(), ErrorCode>(())
            } else {
                Err(ErrorCode::ALREADY)
            },
            final(self)@ == (IsoTpModel {
                vars: Vars { rx_frame_idle: false, ..old(self)@.vars },
                ..old(self)@
            }),
            final(self)@.wf(),
    {
        if self.vars.rx_frame_idle {
            self.vars.rx_frame_idle = false;
            Ok(())
        } else {
            Err(ErrorCode::ALREADY)
        }
    }

    /// The CAN driver gave the reception frame back: it did not start, or it
    /// has stopped.
    pub fn stopped(&mut self)
        requires
            old(self)@.wf(),
        ensures
            final(self)@ == (IsoTpModel {
                vars: Vars { rx_frame_idle: true, ..old(self)@.vars },
                ..old(self)@
            }),
            final(self)@.wf(),
    {
        self.vars.rx_frame_idle = true;
    }

    /// Provide the buffer that incoming messages are assembled into.
    pub fn receive_message(&mut self, buffer: Vec<u8>) -> (result: Result<
        (),
        (ErrorCode, Vec<u8>),
    >)
        requires
            old(self)@.wf(),
        ensures
            match result {
                Ok(_) => old(self)@.rx_buffer is None && final(self)@
                    == old(self)@.receive_message(buffer@),
                Err((error, back)) => old(self)@.rx_buffer is Some && error == ErrorCode::BUSY
                    && back == buffer && final(self)@ == old(self)@,
            },
            final(self)@.wf(),
    {
        if self.rx_buffer.is_some() {
            return Err((ErrorCode::BUSY, buffer));
        }
        self.rx_buffer = Some(buffer);
        self.vars.rx_offset = 0;
        self.vars.rx_len = 0;
        Ok(())
    }

    /// Send the first `len` bytes of `buffer` as one message.
    pub fn transmit_message(&mut self, buffer: Vec<u8>, len: usize) -> (result: Result<
        Output<[u8; 8], Vec<u8>>,
        (ErrorCode, Vec<u8>),
    >)
        requires
            old(self)@.wf(),
        ensures
            match result {
                Ok(output) => old(self)@.transmit_error(buffer@, len) is None && (
                    final(self)@,
                    output@,
                ) == old(self)@.transmit_message(buffer@, len),
                Err((error, back)) => old(self)@.transmit_error(buffer@, len) == Some(error)
                    && back == buffer && final(self)@ == old(self)@,
            },
            final(self)@.wf(),
    {
        match self.vars.state {
            State::Idle => {},
            _ => {
                return Err((ErrorCode::BUSY, buffer));
            },
        }
        if len > MAX_MESSAGE_LEN || len > buffer.len() {
            return Err((ErrorCode::SIZE, buffer));
        }
        self.vars.tx_len = len;
        self.vars.tx_next_sn = 1;
        if len <= SF_MAX {
            // The whole message fits alongside its control byte.
            let head = [PCI_SF * 16 + len as u8];
            let data = build_frame(head.as_slice(), buffer.as_slice(), 0, len);
            assert(data@ =~= single_frame(buffer@.take(len as int))) by {
                assert(head@ =~= seq![(PCI_SF * 16 + len) as u8]);
                assert(buffer@.subrange(0, len as int) =~= buffer@.take(len as int));
            }
            self.tx_buffer = Some(buffer);
            self.vars.tx_offset = len;
            self.vars.state = State::TxSending;
            Ok(self.send_frame(data))
        } else {
            let head = [PCI_FF * 16 + (len / 256) as u8, (len % 256) as u8];
            let data = build_frame(head.as_slice(), buffer.as_slice(), 0, FF_DATA);
            assert(data@ =~= first_frame(buffer@.take(len as int))) by {
                assert(head@ =~= seq![
                    (PCI_FF * 16 + len as int / 256) as u8,
                    (len as int % 256) as u8,
                ]);
                assert(buffer@.subrange(0, FF_DATA as int) =~= buffer@.take(len as int).take(
                    FF_DATA as int,
                ));
            }
            self.tx_buffer = Some(buffer);
            self.vars.tx_offset = FF_DATA;
            self.vars.state = State::TxWaitFlowControl;
            let output = self.send_frame(data);
            Ok(Output { arm: Some(N_BS_MS), ..output })
        }
    }

    /// Ask for a frame to be sent: now, if the scratch frame is here, or as
    /// soon as the driver is done with it.
    fn send_frame(&mut self, data: [u8; 8]) -> (output: Output<[u8; 8], Vec<u8>>)
        ensures
            (final(self)@, output@) == old(self)@.send_frame(data@),
    {
        if self.vars.frame_idle {
            self.vars.frame_idle = false;
            Output { disarm: false, send: Some(data), arm: None, upcall: None }
        } else {
            self.waiting = Some(data);
            nothing()
        }
    }

    /// Send the frame that waits, if there is one.
    fn send_waiting(&mut self) -> (output: Output<[u8; 8], Vec<u8>>)
        ensures
            (final(self)@, output@) == old(self)@.send_waiting(),
    {
        match self.waiting.take() {
            Some(data) => self.send_frame(data),
            None => nothing(),
        }
    }

    /// Send the next consecutive frame of the message being transmitted.
    fn send_consecutive(&mut self) -> (output: Output<[u8; 8], Vec<u8>>)
        requires
            old(self)@.tx_buffer is Some,
            old(self)@.vars.tx_offset <= old(self)@.vars.tx_len <= old(self)@.tx_buffer->0.len(),
            old(self)@.vars.tx_next_sn < 16,
        ensures
            (final(self)@, output@) == old(self)@.send_consecutive(),
    {
        let offset: usize = self.vars.tx_offset;
        let left: usize = self.vars.tx_len - offset;
        let take: usize = if left <= CF_DATA {
            left
        } else {
            CF_DATA
        };
        let sequence: u8 = self.vars.tx_next_sn;
        let head = [PCI_CF * 16 + sequence];
        assert(head@ =~= seq![(PCI_CF * 16 + sequence) as u8]);
        let data = match &self.tx_buffer {
            Some(buffer) => build_frame(head.as_slice(), buffer.as_slice(), offset, take),
            None => [0; 8],
        };
        self.vars.tx_offset = offset + take;
        self.vars.tx_next_sn = (sequence + 1) % 16;
        if self.vars.tx_block_size != 0 && self.vars.tx_block_remaining > 0 {
            self.vars.tx_block_remaining = self.vars.tx_block_remaining - 1;
        }
        self.vars.state = State::TxSending;
        self.send_frame(data)
    }

    fn finish_transmit(&mut self, result: Result<(), ErrorCode>) -> (output: Output<
        [u8; 8],
        Vec<u8>,
    >)
        ensures
            (final(self)@, output@) == old(self)@.finish_transmit(result),
    {
        self.vars.state = State::Idle;
        self.waiting = None;
        let upcall = match self.tx_buffer.take() {
            Some(buffer) => Some(Upcall::Transmitted { buffer, result }),
            None => None,
        };
        Output { disarm: true, send: None, arm: None, upcall }
    }

    fn fail_transmit(&mut self) -> (output: Output<[u8; 8], Vec<u8>>)
        ensures
            (final(self)@, output@) == old(self)@.finish_transmit(Err(ErrorCode::FAIL)),
    {
        self.finish_transmit(Err(ErrorCode::FAIL))
    }

    fn finish_receive(&mut self, len: usize, result: Result<(), ErrorCode>) -> (output: Output<
        [u8; 8],
        Vec<u8>,
    >)
        ensures
            (final(self)@, output@) == old(self)@.finish_receive(len, result),
    {
        self.vars.state = State::Idle;
        self.waiting = None;
        self.vars.rx_offset = 0;
        self.vars.rx_len = 0;
        let upcall = match self.rx_buffer.take() {
            Some(buffer) => Some(Upcall::Received { buffer, len, result }),
            None => None,
        };
        Output { disarm: true, send: None, arm: None, upcall }
    }

    /// Is a transmission in progress?
    fn transmitting(&self) -> (yes: bool)
        ensures
            yes == self@.transmitting(),
    {
        match self.vars.state {
            State::TxWaitFlowControl | State::TxSending | State::TxSeparation => true,
            _ => false,
        }
    }

    /// Is there a buffer that a message of `len` bytes can go into?
    fn has_room(&self, len: usize) -> (yes: bool)
        ensures
            yes == self@.has_room(len as int),
    {
        !self.transmitting() && match &self.rx_buffer {
            Some(buffer) => len <= buffer.len(),
            None => false,
        }
    }

    /// Put part of a frame into the message being assembled.
    fn assemble(&mut self, offset: usize, data: &[u8; 8], from: usize, len: usize)
        requires
            old(self)@.rx_buffer is Some,
            offset + len <= old(self)@.rx_buffer->0.len(),
            from + len <= 8,
        ensures
            final(self)@ == (IsoTpModel {
                rx_buffer: Some(
                    write_at(
                        old(self)@.rx_buffer->0,
                        offset as int,
                        data@.subrange(from as int, from + len),
                    ),
                ),
                ..old(self)@
            }),
    {
        if let Some(buffer) = self.rx_buffer.take() {
            let mut buffer = buffer;
            let part = vstd::slice::slice_subrange(data.as_slice(), from, from + len);
            copy_into(&mut buffer, offset, part);
            self.rx_buffer = Some(buffer);
        }
    }

    fn handle_single_frame(&mut self, data: &[u8; 8]) -> (output: Output<[u8; 8], Vec<u8>>)
        ensures
            (final(self)@, output@) == old(self)@.handle_single_frame(data@),
    {
        let len: usize = (data[0] % 16) as usize;
        if len == 0 || len > SF_MAX || !self.has_room(len) {
            return nothing();
        }
        self.assemble(0, data, 1, len);
        self.finish_receive(len, Ok(()))
    }

    fn handle_first_frame(&mut self, data: &[u8; 8]) -> (output: Output<[u8; 8], Vec<u8>>)
        requires
            !old(self)@.first_overruns(data@),
        ensures
            (final(self)@, output@) == old(self)@.handle_first_frame(data@),
    {
        let len: usize = (data[0] % 16) as usize * 256 + data[1] as usize;
        // A length of zero here means the 2016 escape encoding, which this
        // link does not need.
        if len == 0 || !self.has_room(len) {
            if self.transmitting() && !self.vars.frame_idle {
                return nothing();
            }
            return self.send_frame(build_flow_control(FS_OVFLW));
        }
        self.assemble(0, data, 2, FF_DATA);
        self.vars.rx_len = len;
        self.vars.rx_offset = FF_DATA;
        self.vars.rx_next_sn = 1;
        self.vars.state = State::RxAssembling;
        let output = self.send_frame(build_flow_control(FS_CTS));
        Output { arm: Some(N_CR_MS), ..output }
    }

    fn handle_consecutive_frame(&mut self, data: &[u8; 8]) -> (output: Output<[u8; 8], Vec<u8>>)
        requires
            old(self)@.wf(),
            !old(self)@.consecutive_overruns(data@),
        ensures
            (final(self)@, output@) == old(self)@.handle_consecutive_frame(data@),
    {
        match self.vars.state {
            State::RxAssembling => {},
            _ => {
                return nothing();
            },
        }
        let sequence: u8 = data[0] % 16;
        if sequence != self.vars.rx_next_sn {
            return self.finish_receive(0, Err(ErrorCode::FAIL));
        }
        self.vars.rx_next_sn = (sequence + 1) % 16;
        let offset: usize = self.vars.rx_offset;
        let len: usize = self.vars.rx_len;
        let left: usize = len - offset;
        let take: usize = if left <= CF_DATA {
            left
        } else {
            CF_DATA
        };
        self.assemble(offset, data, 1, take);
        self.vars.rx_offset = offset + take;
        if offset + take >= len {
            self.finish_receive(len, Ok(()))
        } else {
            Output { disarm: false, send: None, arm: Some(N_CR_MS), upcall: None }
        }
    }

    fn handle_flow_control(&mut self, data: &[u8; 8]) -> (output: Output<[u8; 8], Vec<u8>>)
        requires
            old(self)@.wf(),
        ensures
            (final(self)@, output@) == old(self)@.handle_flow_control(data@),
    {
        match self.vars.state {
            State::TxWaitFlowControl => {},
            _ => {
                return nothing();
            },
        }
        let status: u8 = data[0] % 16;
        if status == FS_CTS {
            if self.waiting.is_some() {
                return nothing();
            }
            self.vars.tx_block_size = data[1];
            self.vars.tx_block_remaining = data[1];
            let value: u8 = data[2];
            self.vars.tx_stmin_ms = if 0x01 <= value && value <= 0x7F {
                value as u32
            } else if 0xF1 <= value && value <= 0xF9 {
                1
            } else {
                0
            };
            let output = self.send_consecutive();
            Output { disarm: true, ..output }
        } else if status == FS_WAIT {
            Output { disarm: false, send: None, arm: Some(N_BS_MS), upcall: None }
        } else {
            self.fail_transmit()
        }
    }

    /// Is this a frame that the link must not be given? To be asked before
    /// [`IsoTp::frame_received`].
    pub fn overruns(&self, id: Id, data: &[u8; 8], status: Result<(), ErrorCode>) -> (yes: bool)
        ensures
            yes == self@.overruns(id, data@, status is Ok),
    {
        if status.is_err() || id != self.vars.rx_id {
            return false;
        }
        let what: u8 = data[0] / 16;
        if what == PCI_FF {
            let len: usize = (data[0] % 16) as usize * 256 + data[1] as usize;
            len > 0 && self.has_room(len) && !self.has_room(FF_DATA)
        } else if what == PCI_CF {
            let assembling: bool = match self.vars.state {
                State::RxAssembling => true,
                _ => false,
            };
            assembling && data[0] % 16 == self.vars.rx_next_sn && self.vars.rx_len
                < self.vars.rx_offset
        } else {
            false
        }
    }

    // -- Events -------------------------------------------------------------

    /// A frame arrived with identifier `id`.
    pub fn frame_received(&mut self, id: Id, data: &[u8; 8], status: Result<(), ErrorCode>) -> (output:
        Output<[u8; 8], Vec<u8>>)
        requires
            old(self)@.wf(),
            !old(self)@.overruns(id, data@, status is Ok),
        ensures
            (final(self)@, output@) == old(self)@.frame_received(id, data@, status is Ok),
            final(self)@.wf(),
    {
        if status.is_err() {
            return nothing();
        }
        if id != self.vars.rx_id {
            return nothing();
        }
        let what: u8 = data[0] / 16;
        if what == PCI_SF {
            self.handle_single_frame(data)
        } else if what == PCI_FF {
            self.handle_first_frame(data)
        } else if what == PCI_CF {
            self.handle_consecutive_frame(data)
        } else if what == PCI_FC {
            self.handle_flow_control(data)
        } else {
            nothing()
        }
    }

    /// The CAN driver would not take a frame.
    pub fn send_refused(&mut self) -> (output: Output<[u8; 8], Vec<u8>>)
        requires
            old(self)@.wf(),
        ensures
            (final(self)@, output@) == old(self)@.send_refused(),
            final(self)@.wf(),
    {
        self.vars.frame_idle = true;
        self.fail_transmit()
    }

    /// The CAN driver is done with a frame.
    pub fn transmit_complete(&mut self, status: Result<(), ErrorCode>) -> (output: Output<
        [u8; 8],
        Vec<u8>,
    >)
        requires
            old(self)@.wf(),
        ensures
            (final(self)@, output@) == old(self)@.transmit_complete(status is Ok),
            final(self)@.wf(),
    {
        self.vars.frame_idle = true;
        if status.is_err() {
            if self.tx_buffer.is_some() {
                return self.fail_transmit();
            }
            return self.send_waiting();
        }
        if self.waiting.is_some() {
            return self.send_waiting();
        }
        match self.vars.state {
            State::TxSending => {},
            _ => {
                return nothing();
            },
        }
        if self.vars.tx_offset >= self.vars.tx_len {
            return self.finish_transmit(Ok(()));
        }
        // More to send: either the block is exhausted and the receiver must
        // authorise the next one, or go on after the separation time.
        if self.vars.tx_block_size != 0 && self.vars.tx_block_remaining == 0 {
            self.vars.state = State::TxWaitFlowControl;
            Output { disarm: false, send: None, arm: Some(N_BS_MS), upcall: None }
        } else if self.vars.tx_stmin_ms > 0 {
            self.vars.state = State::TxSeparation;
            let wait: u32 = self.vars.tx_stmin_ms;
            Output { disarm: false, send: None, arm: Some(wait), upcall: None }
        } else {
            self.send_consecutive()
        }
    }

    /// The alarm went off.
    pub fn alarm(&mut self) -> (output: Output<[u8; 8], Vec<u8>>)
        requires
            old(self)@.wf(),
        ensures
            (final(self)@, output@) == old(self)@.alarm(),
            final(self)@.wf(),
    {
        match self.vars.state {
            State::TxSeparation => self.send_consecutive(),
            State::TxWaitFlowControl => self.fail_transmit(),
            State::RxAssembling => self.finish_receive(0, Err(ErrorCode::FAIL)),
            _ => nothing(),
        }
    }
}

} // verus!
