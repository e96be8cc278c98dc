//! What a protocol server asks its surroundings to do.
//!
//! A server never touches hardware. Each of its entry points takes an event
//! and returns one [`Action`]; whoever owns the link and the flash performs it
//! and reports the outcome as the next event. Buffers travel inside actions
//! and events by ownership, so there is exactly one place a buffer can be at
//! any time.

use vstd::prelude::*;

use crate::bytes::{copy_into, write_at};

verus! {

/// One request to the link or to the flash. `B` is a buffer: bytes in a
/// running program, a sequence of bytes in a contract.
pub enum Action<B> {
    /// Nothing to do until the next event.
    Idle,
    /// Start receiving one message into `buffer`.
    Listen { buffer: B },
    /// Send the first `len` bytes of `buffer` as one message.
    Transmit { buffer: B, len: usize },
    /// Read flash page `page_number` into `page`.
    ReadPage { page_number: usize, page: B },
    /// Write `page` to flash page `page_number`.
    WritePage { page_number: usize, page: B },
    /// Erase flash page `page_number`.
    ErasePage { page_number: usize },
    /// Run the board's reset function. Should it return, listen with `then`
    /// where there is one.
    Reset { then: Option<B> },
}

/// The bytes an optional buffer holds.
pub open spec fn held(buffer: Option<Vec<u8>>) -> Option<Seq<u8>> {
    match buffer {
        Some(b) => Some(b@),
        None => None,
    }
}

impl View for Action<Vec<u8>> {
    type V = Action<Seq<u8>>;

    open spec fn view(&self) -> Action<Seq<u8>> {
        match *self {
            Action::Idle => Action::Idle,
            Action::Listen { buffer } => Action::Listen { buffer: buffer@ },
            Action::Transmit { buffer, len } => Action::Transmit { buffer: buffer@, len },
            Action::ReadPage { page_number, page } => Action::ReadPage { page_number, page: page@ },
            Action::WritePage { page_number, page } => Action::WritePage {
                page_number,
                page: page@,
            },
            Action::ErasePage { page_number } => Action::ErasePage { page_number },
            Action::Reset { then } => Action::Reset { then: held(then) },
        }
    }
}

/// Sending `message` from the start of `buffer`.
pub open spec fn transmit(buffer: Seq<u8>, message: Seq<u8>) -> Action<Seq<u8>> {
    Action::Transmit { buffer: write_at(buffer, 0, message), len: message.len() as usize }
}

/// Does `action` put exactly `message` on the wire?
pub open spec fn sends(action: Action<Seq<u8>>, message: Seq<u8>) -> bool {
    &&& action matches Action::Transmit { buffer, len }
    &&& len == message.len()
    &&& len <= buffer.len()
    &&& forall|i: int| 0 <= i < len ==> #[trigger] buffer[i] == message[i]
}

/// A message that fits its buffer is what goes out, whatever the buffer held.
pub proof fn law_message_is_sent(buffer: Seq<u8>, message: Seq<u8>)
    requires
        message.len() <= buffer.len(),
        message.len() <= usize::MAX,
    ensures
        sends(transmit(buffer, message), message),
        transmit(buffer, message)->Transmit_buffer.len() == buffer.len(),
        forall|i: int|
            message.len() <= i < buffer.len()
                ==> #[trigger] transmit(buffer, message)->Transmit_buffer[i] == buffer[i],
{
}

/// A state together with the action asked for on reaching it is sound to
/// perform when a message to be sent lies within its buffer.
pub open spec fn sendable<M>(outcome: (M, Action<Seq<u8>>)) -> bool {
    outcome.1 matches Action::Transmit { buffer, len } ==> len <= buffer.len()
}

/// Put `message` at the start of `buffer` and send it.
pub fn transmit_message(buffer: Vec<u8>, message: &[u8]) -> (action: Action<Vec<u8>>)
    requires
        message@.len() <= buffer@.len(),
    ensures
        action@ == transmit(buffer@, message@),
{
    let mut buffer = buffer;
    copy_into(&mut buffer, 0, message);
    Action::Transmit { buffer, len: message.len() }
}

} // verus!
