//! The bootloader's link over CAN, using ISO-TP for segmentation.
//!
//! A command is one ISO-TP message, so whoever is above always sees a complete
//! command in one delivery.

use vstd::prelude::*;

use crate::error::ErrorCode;
use crate::isotp::frames::{Output, Vars};
use crate::isotp::link::IsoTp;
use crate::isotp::model::IsoTpModel;

verus! {

/// The link.
pub struct CanTransport {
    isotp: IsoTp,
}

impl View for CanTransport {
    type V = IsoTpModel;

    closed spec fn view(&self) -> IsoTpModel {
        self.isotp@
    }
}

impl CanTransport {
    pub fn new(isotp: IsoTp) -> (transport: CanTransport)
        requires
            isotp@.wf(),
        ensures
            transport@ == isotp@,
    {
        CanTransport { isotp }
    }

    /// The ISO-TP connection, for the events of the CAN driver and the alarm.
    pub fn isotp(&mut self) -> (isotp: &mut IsoTp)
        ensures
            isotp@ == old(self)@,
            final(self)@ == final(isotp)@,
    {
        &mut self.isotp
    }

    /// The controller came up, or failed to. Frames only reach ISO-TP once
    /// reception has been started, so this says whether to start it now.
    pub fn enabled(&mut self, status: Result<(), ErrorCode>) -> (start: bool)
        requires
            old(self)@.wf(),
        ensures
            start == (status is Ok && old(self)@.vars.rx_frame_idle),
            final(self)@ == if status is Ok {
                IsoTpModel {
                    vars: Vars { rx_frame_idle: false, ..old(self)@.vars },
                    ..old(self)@
                }
            } else {
                old(self)@
            },
            final(self)@.wf(),
    {
        if status.is_ok() {
            self.isotp.start_receive().is_ok()
        } else {
            false
        }
    }

    /// Receive one message into `buffer`. A buffer handed over before the
    /// controller is up is parked and used once frames start arriving.
    pub fn receive_message(&mut self, buffer: Vec<u8>) -> (result: Result<
        (),
        (ErrorCode, Vec<u8>),
    >)
        requires
            old(self)@.wf(),
        ensures
            match result {
                Ok(_) => old(self)@.rx_buffer is None && final(self)@
                    == old(self)@.receive_message(buffer@),
                Err((error, back)) => old(self)@.rx_buffer is Some && error == ErrorCode::BUSY
                    && back == buffer && final(self)@ == old(self)@,
            },
            final(self)@.wf(),
    {
        self.isotp.receive_message(buffer)
    }

    /// Send the first `len` bytes of `buffer` as one message.
    pub fn transmit_message(&mut self, buffer: Vec<u8>, len: usize) -> (result: Result<
        Output<[u8; 8], Vec<u8>>,
        (ErrorCode, Vec<u8>),
    >)
        requires
            old(self)@.wf(),
        ensures
            match result {
                Ok(output) => old(self)@.transmit_error(buffer@, len) is None && (
                    final(self)@,
                    output@,
                ) == old(self)@.transmit_message(buffer@, len),
                Err((error, back)) => old(self)@.transmit_error(buffer@, len) == Some(error)
                    && back == buffer && final(self)@ == old(self)@,
            },
            final(self)@.wf(),
    {
        self.isotp.transmit_message(buffer, len)
    }
}

} // verus!
