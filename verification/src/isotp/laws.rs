//! What the link promises as a whole.

use vstd::prelude::*;

use crate::bytes::write_at;
use crate::error::ErrorCode;
use crate::isotp::frames::{
    Id, Output, State, Upcall, Vars, CF_DATA, FF_DATA, FS_CTS, FS_OVFLW, FS_WAIT, MAX_MESSAGE_LEN,
    N_BS_MS, PCI_CF, PCI_FC, PCI_FF, SF_MAX,
};
use crate::isotp::model::{
    announced, consecutive_frame, first_frame, flow_control, frame, kind, low, quiet, single_frame,
    IsoTpModel, Outcome,
};

verus! {

// -- A message crosses the link ---------------------------------------------

/// How many frames a message takes.
pub open spec fn segment_count(message: Seq<u8>) -> int {
    if message.len() <= SF_MAX {
        1
    } else {
        1 + (message.len() - FF_DATA + CF_DATA - 1) / (CF_DATA as int)
    }
}

/// How much of a long message its first `k` frames carry, `k` at least one.
pub open spec fn carried(message: Seq<u8>, k: int) -> int {
    let full = FF_DATA + (k - 1) * CF_DATA;
    if full <= message.len() {
        full
    } else {
        message.len() as int
    }
}

/// Frame `k` of a message.
pub open spec fn segment(message: Seq<u8>, k: int) -> Seq<u8> {
    if message.len() <= SF_MAX {
        single_frame(message)
    } else if k == 0 {
        first_frame(message)
    } else {
        consecutive_frame(
            k % 16,
            message.subrange(carried(message, k), carried(message, k + 1)),
        )
    }
}

/// A receiver after the first `k` frames of a message.
pub open spec fn heard(model: IsoTpModel, id: Id, message: Seq<u8>, k: nat) -> Outcome
    decreases k,
{
    if k == 0 {
        (model, quiet())
    } else {
        heard(model, id, message, (k - 1) as nat).0.frame_received(
            id,
            segment(message, k - 1),
            true,
        )
    }
}

/// Leave to go on: `block_size` frames before the next grant, zero for all of
/// them, with `separation` in between.
pub open spec fn grant(block_size: u8, separation: u8) -> Seq<u8> {
    frame(seq![(PCI_FC * 16 + FS_CTS) as u8, block_size, separation])
}

/// A sender after the driver is done with one frame, up to the next one. A
/// sender that waits for a grant gets one, and one that holds off for the
/// separation time has its alarm go off.
#[verifier::opaque]
pub open spec fn gone_on(model: IsoTpModel, id: Id, granted: (u8, u8)) -> Outcome {
    let done = model.transmit_complete(true);
    match done.0.vars.state {
        State::TxWaitFlowControl => done.0.frame_received(id, grant(granted.0, granted.1), true),
        State::TxSeparation => done.0.alarm(),
        _ => done,
    }
}

/// A sender when it has sent `k` frames after the first. `grants` says for
/// each of them what its receiver grants if the sender waits for it then:
/// which block size and which separation time.
pub open spec fn sending(
    model: IsoTpModel,
    id: Id,
    buffer: Seq<u8>,
    len: usize,
    grants: spec_fn(nat) -> (u8, u8),
    k: nat,
) -> Outcome
    decreases k,
{
    if k == 0 {
        model.transmit_message(buffer, len)
    } else {
        gone_on(sending(model, id, buffer, len, grants, (k - 1) as nat).0, id, grants(k))
    }
}

/// Where a long message stands after `k` of its frames.
proof fn lemma_carried(message: Seq<u8>, k: int)
    requires
        SF_MAX < message.len() <= MAX_MESSAGE_LEN,
        1 <= k <= segment_count(message),
    ensures
        k < segment_count(message) ==> carried(message, k) == FF_DATA + (k - 1) * CF_DATA
            && carried(message, k) < message.len(),
        k == segment_count(message) ==> carried(message, k) == message.len(),
        k >= 1 && k < segment_count(message) ==> 0 < carried(message, k + 1) - carried(
            message,
            k,
        ) <= CF_DATA,
{
}

/// What a receiver holds in the middle of a long message.
#[verifier::rlimit(40)]
proof fn lemma_assembling(model: IsoTpModel, id: Id, message: Seq<u8>, k: nat)
    requires
        model.wf(),
        !model.transmitting(),
        model.rx_buffer is Some,
        SF_MAX < message.len() <= MAX_MESSAGE_LEN,
        message.len() <= model.rx_buffer->0.len(),
        id == model.vars.rx_id,
        1 <= k < segment_count(message),
    ensures
        ({
            let now = heard(model, id, message, k).0;
            &&& now.vars.state is RxAssembling
            &&& now.vars.rx_id == model.vars.rx_id
            &&& now.vars.rx_len == message.len()
            &&& now.vars.rx_offset == carried(message, k as int)
            &&& now.vars.rx_next_sn == (k as int) % 16
            &&& now.rx_buffer == Some(
                write_at(model.rx_buffer->0, 0, message.take(carried(message, k as int))),
            )
        }),
    decreases k,
{
    lemma_carried(message, k as int);
    let buffer = model.rx_buffer->0;
    if k == 1 {
        let data = segment(message, 0);
        assert(heard(model, id, message, 0).0 == model);
        assert(data.subrange(2, 8) =~= message.take(FF_DATA as int));
    } else {
        let before = (k - 1) as nat;
        lemma_carried(message, before as int);
        lemma_assembling(model, id, message, before);
        let was = heard(model, id, message, before).0;
        let data = segment(message, before as int);
        let from = carried(message, before as int);
        let to = carried(message, k as int);
        assert(data[0] == (PCI_CF * 16 + (before as int) % 16) as u8);
        assert(data.subrange(1, 1 + (to - from)) =~= message.subrange(from, to));
        assert(write_at(
            write_at(buffer, 0, message.take(from)),
            from,
            message.subrange(from, to),
        ) =~= write_at(buffer, 0, message.take(to)));
    }
}

/// A receiver that hears all the frames of a message, in order, hands exactly
/// that message up, and has answered its first frame with clear-to-send.
pub proof fn law_receiver_assembles_the_message(model: IsoTpModel, id: Id, message: Seq<u8>)
    requires
        model.wf(),
        !model.transmitting(),
        model.rx_buffer is Some,
        1 <= message.len() <= MAX_MESSAGE_LEN,
        message.len() <= model.rx_buffer->0.len(),
        id == model.vars.rx_id,
    ensures
        ({
            let (end, output) = heard(model, id, message, segment_count(message) as nat);
            &&& end.vars.state is Idle
            &&& end.rx_buffer is None
            &&& output.upcall == Some(
                Upcall::Received {
                    buffer: write_at(model.rx_buffer->0, 0, message),
                    len: message.len() as usize,
                    result: Ok(()),
                },
            )
        }),
        message.len() > SF_MAX && model.vars.frame_idle ==> heard(model, id, message, 1).1.send
            == Some(flow_control(FS_CTS)),
{
    let count = segment_count(message);
    let buffer = model.rx_buffer->0;
    assert(heard(model, id, message, 0).0 == model);
    if message.len() <= SF_MAX {
        let data = segment(message, 0);
        assert(heard(model, id, message, 1) == model.frame_received(id, data, true));
        assert(data.subrange(1, 1 + message.len() as int) =~= message);
    } else {
        let last = (count - 1) as nat;
        lemma_carried(message, last as int);
        lemma_carried(message, count);
        lemma_assembling(model, id, message, last);
        assert(heard(model, id, message, 1) == model.frame_received(
            id,
            segment(message, 0),
            true,
        ));
        let was = heard(model, id, message, last).0;
        let data = segment(message, last as int);
        let from = carried(message, last as int);
        assert(data[0] == (PCI_CF * 16 + (last as int) % 16) as u8);
        assert(data.subrange(1, 1 + (message.len() - from)) =~= message.subrange(
            from,
            message.len() as int,
        ));
        assert(write_at(
            write_at(buffer, 0, message.take(from)),
            from,
            message.subrange(from, message.len() as int),
        ) =~= write_at(buffer, 0, message));
    }
}

/// Whatever it is granted, a sender that is not done goes on to the next frame.
proof fn lemma_gone_on(was: IsoTpModel, id: Id, granted: (u8, u8))
    requires
        was.wf(),
        was.waiting is None,
        was.vars.state is TxWaitFlowControl || was.vars.state is TxSending,
        was.vars.tx_offset < was.vars.tx_len,
        id == was.vars.rx_id,
    ensures
        ({
            let (now, output) = gone_on(was, id, granted);
            let from = was.vars.tx_offset as int;
            let left = was.vars.tx_len - from;
            let to = from + if left <= CF_DATA {
                left
            } else {
                CF_DATA as int
            };
            &&& now.wf()
            &&& now.waiting is None
            &&& now.vars.state is TxSending
            &&& now.vars.rx_id == was.vars.rx_id
            &&& now.tx_buffer == was.tx_buffer
            &&& now.vars.tx_len == was.vars.tx_len
            &&& now.vars.tx_offset == to
            &&& now.vars.tx_next_sn == (was.vars.tx_next_sn + 1) % 16
            &&& output.send == Some(
                consecutive_frame(
                    was.vars.tx_next_sn as int,
                    was.tx_buffer->0.subrange(from, to),
                ),
            )
            &&& output.upcall is None
        }),
{
    reveal(gone_on);
    let leave = grant(granted.0, granted.1);
    assert(leave[0] == 0x30 && leave[1] == granted.0 && leave[2] == granted.1);
}

/// What a sender holds after `k` frames.
proof fn lemma_sending(
    model: IsoTpModel,
    id: Id,
    buffer: Seq<u8>,
    len: usize,
    grants: spec_fn(nat) -> (u8, u8),
    k: nat,
)
    requires
        model.wf(),
        model.vars.state is Idle,
        model.vars.frame_idle,
        SF_MAX < len <= MAX_MESSAGE_LEN,
        len <= buffer.len(),
        id == model.vars.rx_id,
        k < segment_count(buffer.take(len as int)),
    ensures
        ({
            let message = buffer.take(len as int);
            let (now, output) = sending(model, id, buffer, len, grants, k);
            &&& now.wf()
            &&& now.waiting is None
            &&& now.vars.rx_id == model.vars.rx_id
            &&& now.tx_buffer == Some(buffer)
            &&& now.vars.tx_len == len
            &&& now.vars.tx_offset == carried(message, k as int + 1)
            &&& now.vars.tx_next_sn == ((k + 1) as int) % 16
            &&& k == 0 ==> now.vars.state is TxWaitFlowControl
            &&& k > 0 ==> now.vars.state is TxSending
            &&& output.send == Some(segment(message, k as int))
            &&& output.upcall is None
        }),
    decreases k,
{
    let message = buffer.take(len as int);
    lemma_carried(message, k as int + 1);
    if k > 0 {
        let before = (k - 1) as nat;
        lemma_sending(model, id, buffer, len, grants, before);
        lemma_carried(message, k as int);
        let from = carried(message, k as int);
        let to = carried(message, k as int + 1);
        assert(buffer.subrange(from, to) =~= message.subrange(from, to));
        lemma_gone_on(sending(model, id, buffer, len, grants, before).0, id, grants(k));
    }
}

/// Whatever block sizes and separation times its receiver grants, a sender
/// emits exactly the frames of the message, in order, and then hands its
/// buffer back.
pub proof fn law_sender_emits_the_segments(
    model: IsoTpModel,
    id: Id,
    buffer: Seq<u8>,
    len: usize,
    grants: spec_fn(nat) -> (u8, u8),
    k: nat,
)
    requires
        model.wf(),
        model.vars.state is Idle,
        model.vars.frame_idle,
        1 <= len <= MAX_MESSAGE_LEN,
        len <= buffer.len(),
        id == model.vars.rx_id,
        k < segment_count(buffer.take(len as int)),
    ensures
        ({
            let message = buffer.take(len as int);
            let (now, output) = sending(model, id, buffer, len, grants, k);
            &&& output.send == Some(segment(message, k as int))
            &&& k == segment_count(message) - 1 ==> now.transmit_complete(true).1.upcall == Some(
                Upcall::Transmitted { buffer, result: Ok(()) },
            ) && now.transmit_complete(true).0.vars.state is Idle
        }),
{
    let message = buffer.take(len as int);
    if len > SF_MAX {
        lemma_sending(model, id, buffer, len, grants, k);
        lemma_carried(message, k as int + 1);
        if k == 0 {
            lemma_carried(message, 1);
        }
    }
}

/// Whatever a sender is given to send is what a receiver of its frames hands
/// up: the frames it emits, under any grants, are the frames of the message,
/// and those make the receiver hand up the message.
pub proof fn law_message_crosses_the_link(
    sender: IsoTpModel,
    grants_on: Id,
    grants: spec_fn(nat) -> (u8, u8),
    buffer: Seq<u8>,
    len: usize,
    receiver: IsoTpModel,
    id: Id,
)
    requires
        sender.wf(),
        sender.vars.state is Idle,
        sender.vars.frame_idle,
        1 <= len <= MAX_MESSAGE_LEN,
        len <= buffer.len(),
        grants_on == sender.vars.rx_id,
        receiver.wf(),
        !receiver.transmitting(),
        receiver.rx_buffer is Some,
        len <= receiver.rx_buffer->0.len(),
        id == receiver.vars.rx_id,
    ensures
        ({
            let message = buffer.take(len as int);
            let count = segment_count(message);
            let output = heard(receiver, id, message, count as nat).1;
            &&& forall|k: nat|
                k < count ==> (#[trigger] sending(sender, grants_on, buffer, len, grants, k)).1.send
                    == Some(segment(message, k as int))
            &&& output.upcall matches Some(Upcall::Received { buffer: got, len: got_len, result })
            &&& got.take(got_len as int) == message
            &&& result is Ok
        }),
{
    let message = buffer.take(len as int);
    assert forall|k: nat| k < segment_count(message) implies (#[trigger] sending(
        sender,
        grants_on,
        buffer,
        len,
        grants,
        k,
    )).1.send == Some(segment(message, k as int)) by {
        law_sender_emits_the_segments(sender, grants_on, buffer, len, grants, k);
    }
    law_receiver_assembles_the_message(receiver, id, message);
    assert(write_at(receiver.rx_buffer->0, 0, message).take(len as int) =~= message);
}

// -- What goes wrong ----------------------------------------------------------

/// A lost frame is never papered over: a consecutive frame out of sequence
/// ends the reception with an error, and no message is handed up.
pub proof fn law_gap_abandons_the_message(model: IsoTpModel, id: Id, data: Seq<u8>)
    requires
        model.wf(),
        model.vars.state is RxAssembling,
        id == model.vars.rx_id,
        kind(data) == PCI_CF,
        low(data) != model.vars.rx_next_sn,
    ensures
        ({
            let (next, output) = model.frame_received(id, data, true);
            &&& next.vars.state is Idle
            &&& output.upcall == Some(
                Upcall::Received {
                    buffer: model.rx_buffer->0,
                    len: 0,
                    result: Err(ErrorCode::FAIL),
                },
            )
        }),
{
}

/// Frames with another identifier, in format or in number, and frames received
/// in error, change nothing.
pub proof fn law_foreign_frames_are_ignored(model: IsoTpModel, id: Id, data: Seq<u8>, ok: bool)
    requires
        !ok || id != model.vars.rx_id,
    ensures
        model.frame_received(id, data, ok) == (model, quiet()),
{
}

/// Half duplex: while this end transmits, no frame starts or carries a
/// reception. A first frame is turned down with an overflow if the scratch
/// frame is here for it, and nothing else happens. While this end receives, no
/// transmission is accepted.
pub proof fn law_half_duplex(
    model: IsoTpModel,
    id: Id,
    data: Seq<u8>,
    buffer: Seq<u8>,
    len: usize,
)
    ensures
        model.transmitting() && kind(data) != PCI_FC ==> model.frame_received(id, data, true)
            == if id == model.vars.rx_id && kind(data) == PCI_FF && model.vars.frame_idle {
            (
                IsoTpModel { vars: Vars { frame_idle: false, ..model.vars }, ..model },
                Output { send: Some(flow_control(FS_OVFLW)), ..quiet() },
            )
        } else {
            (model, quiet())
        },
        model.vars.state is RxAssembling ==> model.transmit_error(buffer, len) == Some(
            ErrorCode::BUSY,
        ),
{
}

/// An event on a link that is transmitting.
pub enum SendingEvent {
    Frame { id: Id, data: Seq<u8>, ok: bool },
    Complete { ok: bool },
    Alarm,
}

/// What a link does on such an event.
pub open spec fn on_sending(model: IsoTpModel, event: SendingEvent) -> Outcome {
    match event {
        SendingEvent::Frame { id, data, ok } => model.frame_received(id, data, ok),
        SendingEvent::Complete { ok } => model.transmit_complete(ok),
        SendingEvent::Alarm => model.alarm(),
    }
}

/// No part of a message is skipped: whatever happens, and whenever it does, a
/// transmission moves on only by what a frame carries that is handed to the
/// driver, or waits while the driver has another. A frame that waits is the
/// next to be handed over unless the transmission fails, and the transmission
/// succeeds only from the end of the message with nothing waiting.
pub proof fn law_nothing_is_skipped(model: IsoTpModel, event: SendingEvent)
    requires
        model.wf(),
        model.transmitting(),
    ensures
        ({
            let from = model.vars.tx_offset as int;
            let (next, output) = on_sending(model, event);
            let to = next.vars.tx_offset as int;
            &&& next.vars.tx_offset != model.vars.tx_offset ==> {
                let carrier = consecutive_frame(
                    model.vars.tx_next_sn as int,
                    model.tx_buffer->0.subrange(from, to),
                );
                &&& from < to <= model.vars.tx_len
                &&& model.waiting is None
                &&& output.send == Some(carrier) || next.waiting == Some(carrier)
            }
            &&& next.vars.tx_offset == model.vars.tx_offset ==> next.waiting is None
                || next.waiting == model.waiting
            &&& model.waiting is Some && next.transmitting() ==> {
                ||| output.send is None && next.waiting == model.waiting
                ||| output.send == model.waiting && next.waiting is None
            }
            &&& model.waiting is Some && !next.transmitting() ==> output.upcall == Some(
                Upcall::Transmitted { buffer: model.tx_buffer->0, result: Err(ErrorCode::FAIL) },
            )
            &&& output.upcall == Some(
                Upcall::Transmitted { buffer: model.tx_buffer->0, result: Ok(()) },
            ) ==> from == model.vars.tx_len && model.waiting is None
        }),
{
}

/// A message starts with its first frame, whenever it is given: the frame is
/// handed to the driver at once, or waits until the driver is done with the
/// one it has, and then everything is as if it had gone out at once.
pub proof fn law_message_starts_with_its_first_frame(
    model: IsoTpModel,
    buffer: Seq<u8>,
    len: usize,
)
    requires
        model.wf(),
        model.transmit_error(buffer, len) is None,
    ensures
        ({
            let message = buffer.take(len as int);
            let (next, output) = model.transmit_message(buffer, len);
            let free = IsoTpModel {
                vars: Vars { frame_idle: true, ..model.vars },
                waiting: None,
                ..model
            };
            let (sent, done) = next.transmit_complete(true);
            &&& next.vars.tx_offset == if len <= SF_MAX {
                len
            } else {
                FF_DATA
            }
            &&& model.vars.frame_idle ==> {
                &&& output.send == Some(segment(message, 0))
                &&& next.waiting is None
            }
            &&& !model.vars.frame_idle ==> {
                &&& output.send is None
                &&& next.waiting == Some(segment(message, 0))
                &&& done.send == Some(segment(message, 0))
                &&& sent == free.transmit_message(buffer, len).0
            }
        }),
{
}

/// A message that cannot be taken is turned down: its first frame is answered
/// with an overflow, at once or when the driver is done with the frame it has,
/// and nothing else changes.
pub proof fn law_untakable_message_is_turned_down(model: IsoTpModel, id: Id, data: Seq<u8>)
    requires
        model.wf(),
        !model.transmitting(),
        id == model.vars.rx_id,
        kind(data) == PCI_FF,
        announced(data) == 0 || !model.has_room(announced(data)),
    ensures
        ({
            let (next, output) = model.frame_received(id, data, true);
            let (later, done) = next.transmit_complete(true);
            &&& model.vars.frame_idle ==> {
                &&& output == (Output { send: Some(flow_control(FS_OVFLW)), ..quiet() })
                &&& next == (IsoTpModel {
                    vars: Vars { frame_idle: false, ..model.vars },
                    ..model
                })
            }
            &&& !model.vars.frame_idle ==> {
                &&& output == quiet()
                &&& done == (Output { send: Some(flow_control(FS_OVFLW)), ..quiet() })
                &&& later == (IsoTpModel { waiting: None, ..model })
            }
        }),
{
}

/// A clear-to-send that is owed while the driver has another frame goes out
/// when the driver is done with that, however that frame fared.
pub proof fn law_clear_to_send_is_sent(model: IsoTpModel, id: Id, data: Seq<u8>, ok: bool)
    requires
        model.wf(),
        !model.transmitting(),
        !model.vars.frame_idle,
        id == model.vars.rx_id,
        kind(data) == PCI_FF,
        0 < announced(data) && model.has_room(announced(data)),
    ensures
        ({
            let (next, output) = model.frame_received(id, data, true);
            &&& next.vars.state is RxAssembling
            &&& output.send is None
            &&& next.transmit_complete(ok).1.send == Some(flow_control(FS_CTS))
            &&& next.transmit_complete(ok).0 == (IsoTpModel { waiting: None, ..next })
        }),
{
}

/// Silence ends a transfer: a sender that is not answered and a receiver that
/// hears no more give up when the alarm goes off, and hand their buffer back.
pub proof fn law_silence_ends_a_transfer(model: IsoTpModel)
    requires
        model.wf(),
    ensures
        model.vars.state is TxWaitFlowControl ==> model.alarm().0.vars.state is Idle
            && model.alarm().1.upcall == Some(
            Upcall::Transmitted { buffer: model.tx_buffer->0, result: Err(ErrorCode::FAIL) },
        ),
        model.vars.state is RxAssembling ==> model.alarm().0.vars.state is Idle
            && model.alarm().1.upcall == Some(
            Upcall::Received {
                buffer: model.rx_buffer->0,
                len: 0,
                result: Err(ErrorCode::FAIL),
            },
        ),
{
}

/// The receiver's flow control is obeyed: past the end of a block nothing is
/// sent before another grant, and within one every frame but the first waits
/// for the separation time asked for.
pub proof fn law_flow_control_is_obeyed(model: IsoTpModel)
    requires
        model.wf(),
        model.vars.state is TxSending,
        model.waiting is None,
        model.vars.tx_offset < model.vars.tx_len,
    ensures
        ({
            let (next, output) = model.transmit_complete(true);
            &&& model.vars.tx_block_size != 0 && model.vars.tx_block_remaining == 0 ==> {
                &&& output.send is None
                &&& next.vars.state is TxWaitFlowControl
                &&& output.arm == Some(N_BS_MS)
            }
            &&& !(model.vars.tx_block_size != 0 && model.vars.tx_block_remaining == 0)
                && model.vars.tx_stmin_ms > 0 ==> {
                &&& output.send is None
                &&& next.vars.state is TxSeparation
                &&& output.arm == Some(model.vars.tx_stmin_ms)
            }
        }),
{
}

/// A receiver that is not ready keeps the sender waiting, with its alarm set
/// anew and nothing else changed.
pub proof fn law_wait_keeps_the_sender_waiting(model: IsoTpModel, id: Id, data: Seq<u8>)
    requires
        model.vars.state is TxWaitFlowControl,
        id == model.vars.rx_id,
        kind(data) == PCI_FC,
        low(data) == FS_WAIT,
    ensures
        model.frame_received(id, data, true) == (
            model,
            (Output::<Seq<u8>, Seq<u8>> { arm: Some(N_BS_MS), ..quiet() }),
        ),
{
}

/// A receiver that cannot take the message ends the transmission: overflow,
/// or a status that means nothing, hands the buffer back with an error.
pub proof fn law_overflow_ends_the_transmission(model: IsoTpModel, id: Id, data: Seq<u8>)
    requires
        model.wf(),
        model.vars.state is TxWaitFlowControl,
        id == model.vars.rx_id,
        kind(data) == PCI_FC,
        low(data) != FS_CTS && low(data) != FS_WAIT,
    ensures
        model.frame_received(id, data, true).1.upcall == Some(
            Upcall::Transmitted { buffer: model.tx_buffer->0, result: Err(ErrorCode::FAIL) },
        ),
        model.frame_received(id, data, true).0.vars.state is Idle,
{
}

} // verus!
