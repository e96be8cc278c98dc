//! The bootloader's link over a UART.
//!
//! Message framing comes from the UART's receive-timeout mode: a message is
//! whatever arrives before the line goes idle for a while.

use vstd::prelude::*;

use crate::error::ErrorCode;

verus! {

/// Idle time, in bit periods, that ends a received message.
pub const UART_RECEIVE_TIMEOUT: u8 = 250;

pub const BAUD_RATE: u32 = 115200;

/// Parity of a line.
#[derive(Copy, Clone, PartialEq, Eq, Structural)]
pub enum Parity {
    Even,
    Odd,
    Unused,
}

/// How a line is set up.
#[derive(Copy, Clone, PartialEq, Eq, Structural)]
pub struct Parameters {
    pub baud_rate: u32,
    pub data_bits: u8,
    pub stop_bits: u8,
    pub parity: Parity,
    pub hw_flow_control: bool,
}

/// A reception to start: up to `len` bytes into `buffer`, ended by an idle
/// line.
pub struct ReceiveAutomatic {
    pub buffer: Vec<u8>,
    pub len: usize,
    pub timeout: u8,
}

/// The link.
pub struct UartTransport {
    /// Is a reception in flight?
    receiving: bool,
}

impl UartTransport {
    pub closed spec fn is_receiving(self) -> bool {
        self.receiving
    }

    pub fn new() -> (transport: UartTransport)
        ensures
            !transport.is_receiving(),
    {
        UartTransport { receiving: false }
    }

    /// How to set the line up: 115200 baud, eight bits, no parity, one stop
    /// bit, no flow control.
    pub fn configure(&self) -> (parameters: Parameters)
        ensures
            parameters == (Parameters {
                baud_rate: BAUD_RATE,
                data_bits: 8,
                stop_bits: 1,
                parity: Parity::Unused,
                hw_flow_control: false,
            }),
            parameters.baud_rate == 115200,
    {
        Parameters {
            baud_rate: BAUD_RATE,
            data_bits: 8,
            stop_bits: 1,
            parity: Parity::Unused,
            hw_flow_control: false,
        }
    }

    /// Receive one message into `buffer`, which may fill it.
    pub fn receive_message(&mut self, buffer: Vec<u8>) -> (request: ReceiveAutomatic)
        ensures
            request.buffer == buffer,
            request.len == buffer@.len(),
            request.timeout == UART_RECEIVE_TIMEOUT,
            request.timeout == 250,
            final(self).is_receiving(),
    {
        self.receiving = true;
        let len: usize = buffer.len();
        ReceiveAutomatic { buffer, len, timeout: UART_RECEIVE_TIMEOUT }
    }

    /// The UART did not start the reception: what to tell the client.
    pub fn receive_refused(&mut self, error: ErrorCode, buffer: Vec<u8>) -> (result: (
        ErrorCode,
        Vec<u8>,
    ))
        ensures
            result == (error, buffer),
            !final(self).is_receiving(),
    {
        self.receiving = false;
        (error, buffer)
    }

    /// The reception is over. What was received goes up as it is.
    pub fn received_buffer(&mut self, buffer: Vec<u8>, rx_len: usize) -> (message: (Vec<u8>, usize))
        ensures
            message == (buffer, rx_len),
            !final(self).is_receiving(),
    {
        self.receiving = false;
        (buffer, rx_len)
    }
}

} // verus!
