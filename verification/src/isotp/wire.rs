//! What goes over the wire, byte for byte, and when.
//!
//! The laws here speak of frames as they are on the bus and of times in
//! milliseconds.

use vstd::prelude::*;

use crate::error::ErrorCode;
use crate::isotp::frames::{Id, Upcall, Vars};
use crate::isotp::laws::{segment, segment_count};
use crate::isotp::model::{consecutive_frame, flow_control, quiet, IsoTpModel, Outcome};

verus! {

/// A message on the wire. Up to seven bytes go into one frame behind their
/// number. A longer one starts with twelve bits of length and six bytes, and
/// goes on seven bytes a frame, numbered from one on and around after fifteen.
/// Whatever a frame has no use for is zero.
pub proof fn law_segments_on_the_wire(message: Seq<u8>, k: int)
    requires
        1 <= message.len() <= 4095,
        0 <= k < segment_count(message),
    ensures
        ({
            let n = message.len() as int;
            let data = segment(message, k);
            &&& segment_count(message) == if n <= 7 {
                1
            } else {
                1 + (n - 6 + 6) / 7
            }
            &&& data.len() == 8
            &&& n <= 7 ==> {
                &&& data[0] == n
                &&& forall|j: int|
                    0 <= j < 7 ==> #[trigger] data[1 + j] == if j < n {
                        message[j]
                    } else {
                        0
                    }
            }
            &&& n > 7 && k == 0 ==> {
                &&& data[0] == 0x10 + n / 256
                &&& data[1] == n % 256
                &&& forall|j: int| 0 <= j < 6 ==> #[trigger] data[2 + j] == message[j]
            }
            &&& n > 7 && k > 0 ==> {
                &&& data[0] == 0x20 + k % 16
                &&& forall|j: int|
                    0 <= j < 7 ==> #[trigger] data[1 + j] == if 6 + 7 * (k - 1) + j < n {
                        message[6 + 7 * (k - 1) + j]
                    } else {
                        0
                    }
            }
        }),
{
}

/// What flow control looks like: clear to send grants everything at once, and
/// overflow turns a message down.
pub proof fn law_flow_control_on_the_wire()
    ensures
        flow_control(0) == seq![0x30u8, 0, 0, 0, 0, 0, 0, 0],
        flow_control(2) == seq![0x32u8, 0, 0, 0, 0, 0, 0, 0],
{
    assert(flow_control(0) =~= seq![0x30u8, 0, 0, 0, 0, 0, 0, 0]);
    assert(flow_control(2) =~= seq![0x32u8, 0, 0, 0, 0, 0, 0, 0]);
}

/// A new link listens on one identifier and transmits on the other, and has
/// nothing in flight.
pub proof fn law_new_link(rx_id: Id, tx_id: Id)
    ensures
        ({
            let link = IsoTpModel::init(rx_id, tx_id);
            &&& link.wf()
            &&& link.vars.rx_id == rx_id && link.vars.tx_id == tx_id
            &&& link.vars.state is Idle
            &&& link.vars.frame_idle && link.vars.rx_frame_idle
            &&& link.rx_buffer is None && link.tx_buffer is None && link.waiting is None
        }),
{
}

/// Which messages are taken: any of up to 4095 bytes that its buffer holds,
/// while nothing is in flight.
pub proof fn law_message_is_taken(link: IsoTpModel, buffer: Seq<u8>, len: usize)
    ensures
        link.transmit_error(buffer, len) == if !(link.vars.state is Idle) {
            Some(ErrorCode::BUSY)
        } else if len > 4095 || len > buffer.len() {
            Some(ErrorCode::SIZE)
        } else {
            None
        },
{
}

/// A message sets off with its first frame; a long one then waits a second for
/// its receiver, and a short one is done when the frame is.
pub proof fn law_message_sets_off(link: IsoTpModel, buffer: Seq<u8>, len: usize)
    requires
        link.wf(),
        link.vars.state is Idle,
        link.vars.frame_idle,
        1 <= len <= 4095,
        len <= buffer.len(),
    ensures
        ({
            let (next, output) = link.transmit_message(buffer, len);
            let (done, end) = next.transmit_complete(true);
            &&& output.send == Some(segment(buffer.take(len as int), 0))
            &&& output.upcall is None && !output.disarm
            &&& next.tx_buffer == Some(buffer)
            &&& len <= 7 ==> {
                &&& output.arm is None
                &&& end.upcall == Some(Upcall::Transmitted { buffer, result: Ok(()) })
                &&& done.vars.state is Idle
            }
            &&& len > 7 ==> {
                &&& output.arm == Some(1000u32)
                &&& next.vars.state is TxWaitFlowControl
                &&& end == quiet()
                &&& done.vars.state is TxWaitFlowControl
            }
        }),
{
}

// -- Pace -------------------------------------------------------------------

/// The pause, in milliseconds, that the third byte of a flow control frame
/// asks for: itself up to 127, one for 0xF1 to 0xF9, and none otherwise.
pub open spec fn pause(value: u8) -> int {
    if 0x01 <= value && value <= 0x7F {
        value as int
    } else if 0xF1 <= value && value <= 0xF9 {
        1
    } else {
        0
    }
}

/// A sender that has been granted leave by `data` and has sent `k` frames since
/// the one that the grant let out. Its alarm goes off whenever it waits for it.
pub open spec fn paced(link: IsoTpModel, id: Id, data: Seq<u8>, k: nat) -> Outcome
    decreases k,
{
    if k == 0 {
        link.frame_received(id, data, true)
    } else {
        let done = paced(link, id, data, (k - 1) as nat).0.transmit_complete(true);
        if done.0.vars.state is TxSeparation {
            done.0.alarm()
        } else {
            done
        }
    }
}

/// Is this sender waiting for the flow control that arrives?
pub open spec fn awaits(link: IsoTpModel, id: Id, data: Seq<u8>) -> bool {
    &&& link.wf()
    &&& link.vars.state is TxWaitFlowControl
    &&& link.waiting is None
    &&& link.vars.frame_idle
    &&& id == link.vars.rx_id
    &&& data.len() == 8
}

/// Where a sender stands in the middle of a block.
#[verifier::rlimit(40)]
proof fn lemma_paced(link: IsoTpModel, id: Id, data: Seq<u8>, k: nat)
    requires
        awaits(link, id, data),
        data[0] == 0x30,
        data[1] == 0 || k < data[1],
        link.vars.tx_offset + 7 * k < link.vars.tx_len,
    ensures
        ({
            let (now, output) = paced(link, id, data, k);
            let from = link.vars.tx_offset + 7 * k;
            let to = if from + 7 <= link.vars.tx_len {
                from + 7
            } else {
                link.vars.tx_len as int
            };
            &&& now.wf()
            &&& now.vars.state is TxSending
            &&& !now.vars.frame_idle
            &&& now.waiting is None
            &&& now.tx_buffer == link.tx_buffer
            &&& now.vars.tx_len == link.vars.tx_len
            &&& now.vars.tx_offset == to
            &&& now.vars.tx_next_sn == (link.vars.tx_next_sn + k + 1) % 16
            &&& now.vars.tx_block_size == data[1]
            &&& data[1] > 0 ==> now.vars.tx_block_remaining == data[1] - k - 1
            &&& now.vars.tx_stmin_ms == pause(data[2])
            &&& output.send == Some(
                consecutive_frame(
                    (link.vars.tx_next_sn + k) % 16,
                    link.tx_buffer->0.subrange(from, to),
                ),
            )
            &&& output.upcall is None
        }),
    decreases k,
{
    if k > 0 {
        lemma_paced(link, id, data, (k - 1) as nat);
    }
}

/// The receiver sets the pace. After a clear-to-send frame 30 n v, the frames
/// of the message go out in order. Between two of them the alarm is set to v
/// milliseconds for v from 1 to 127, and to one for v from 0xF1 to 0xF9, and
/// the next frame goes out when it goes off; for any other v it goes out at
/// once. After n of them, unless n is zero, the sender waits a second for the
/// next clear-to-send. When the message is out, it is reported.
pub proof fn law_receiver_sets_the_pace(link: IsoTpModel, id: Id, data: Seq<u8>, k: nat)
    requires
        awaits(link, id, data),
        data[0] == 0x30,
        data[1] == 0 || k < data[1],
        link.vars.tx_offset + 7 * k < link.vars.tx_len,
    ensures
        ({
            let (now, output) = paced(link, id, data, k);
            let (next, after) = now.transmit_complete(true);
            let last = link.vars.tx_offset + 7 * (k + 1) >= link.vars.tx_len;
            let block_over = data[1] != 0 && k + 1 == data[1];
            let v = data[2] as int;
            &&& k == 0 ==> output.disarm
            &&& output.send matches Some(sent)
            &&& sent.len() == 8
            &&& sent[0] == 0x20 + (link.vars.tx_next_sn + k) % 16
            &&& forall|j: int|
                0 <= j < 7 ==> #[trigger] sent[1 + j] == if link.vars.tx_offset + 7 * k + j
                    < link.vars.tx_len {
                    link.tx_buffer->0[link.vars.tx_offset + 7 * k + j]
                } else {
                    0
                }
            &&& last ==> after.upcall == Some(
                Upcall::Transmitted { buffer: link.tx_buffer->0, result: Ok(()) },
            ) && after.send is None && next.vars.state is Idle
            &&& !last && block_over ==> after.arm == Some(1000u32) && after.send is None
                && next.vars.state is TxWaitFlowControl
            &&& !last && !block_over && 0x01 <= v <= 0x7F ==> after.arm == Some(data[2] as u32)
                && after.send is None && next.alarm().1.send is Some
            &&& !last && !block_over && 0xF1 <= v <= 0xF9 ==> after.arm == Some(1u32)
                && after.send is None && next.alarm().1.send is Some
            &&& !last && !block_over && (v == 0 || 0x80 <= v <= 0xF0 || 0xFA <= v)
                ==> after.arm is None && after.send is Some
        }),
{
    lemma_paced(link, id, data, k);
    if k > 0 {
        lemma_paced(link, id, data, (k - 1) as nat);
    }
}

/// What flow control other than clear-to-send does: 31 sets the alarm anew, a
/// second ahead, and changes nothing; anything else ends the transmission.
pub proof fn law_wait_and_overflow(link: IsoTpModel, id: Id, data: Seq<u8>)
    requires
        link.wf(),
        link.vars.state is TxWaitFlowControl,
        id == link.vars.rx_id,
        data.len() == 8,
        0x31 <= data[0] <= 0x3F,
    ensures
        ({
            let (next, output) = link.frame_received(id, data, true);
            &&& data[0] == 0x31 ==> next == link && output.arm == Some(1000u32)
                && output.send is None && output.upcall is None && !output.disarm
            &&& data[0] != 0x31 ==> {
                &&& next.vars.state is Idle
                &&& next.tx_buffer is None
                &&& output.disarm && output.send is None
                &&& output.upcall == Some(
                    Upcall::Transmitted {
                        buffer: link.tx_buffer->0,
                        result: Err(ErrorCode::FAIL),
                    },
                )
            }
        }),
{
}

// -- Receptions -------------------------------------------------------------

/// Is this link ready for a message of `len` bytes?
pub open spec fn ready_for(link: IsoTpModel, len: int) -> bool {
    &&& link.wf()
    &&& link.vars.state is Idle || link.vars.state is RxAssembling
    &&& link.rx_buffer is Some
    &&& 0 < len <= link.rx_buffer->0.len()
}

/// A single frame hands its bytes up, whatever was being assembled. One that
/// says nothing, or more than it can carry, or that there is no room for, is
/// ignored.
pub proof fn law_single_frame_is_received(link: IsoTpModel, id: Id, data: Seq<u8>)
    requires
        link.wf(),
        id == link.vars.rx_id,
        data.len() == 8,
        data[0] <= 0x0F,
    ensures
        ({
            let len = data[0] as int;
            let (next, output) = link.frame_received(id, data, true);
            if len <= 7 && ready_for(link, len) {
                &&& output.upcall matches Some(Upcall::Received { buffer, len: got, result })
                &&& got == len && result is Ok
                &&& buffer.len() == link.rx_buffer->0.len()
                &&& forall|i: int|
                    0 <= i < buffer.len() ==> #[trigger] buffer[i] == if i < len {
                        data[1 + i]
                    } else {
                        link.rx_buffer->0[i]
                    }
                &&& output.disarm && output.send is None && output.arm is None
                &&& next.vars.state is Idle && next.rx_buffer is None
            } else {
                next == link && output == quiet()
            }
        }),
{
}

/// A first frame that can be taken starts a reception with its six bytes, is
/// answered with clear-to-send, and gives the sender a second for the next
/// frame. One that cannot be taken is answered with overflow and changes
/// nothing else.
pub proof fn law_first_frame_is_received(link: IsoTpModel, id: Id, data: Seq<u8>)
    requires
        link.wf(),
        link.vars.frame_idle,
        !link.overruns(id, data, true),
        id == link.vars.rx_id,
        data.len() == 8,
        0x10 <= data[0] <= 0x1F,
    ensures
        ({
            let len = (data[0] - 0x10) * 256 + data[1];
            let (next, output) = link.frame_received(id, data, true);
            if ready_for(link, len) {
                &&& output.send == Some(seq![0x30u8, 0, 0, 0, 0, 0, 0, 0])
                &&& output.arm == Some(1000u32)
                &&& output.upcall is None
                &&& next.vars.state is RxAssembling
                &&& next.vars.rx_len == len
                &&& next.vars.rx_offset == 6
                &&& next.vars.rx_next_sn == 1
                &&& next.rx_buffer matches Some(buffer)
                &&& buffer.len() == link.rx_buffer->0.len()
                &&& forall|i: int|
                    0 <= i < buffer.len() ==> #[trigger] buffer[i] == if i < 6 {
                        data[2 + i]
                    } else {
                        link.rx_buffer->0[i]
                    }
            } else {
                &&& output.send == Some(seq![0x32u8, 0, 0, 0, 0, 0, 0, 0])
                &&& output.arm is None && output.upcall is None && !output.disarm
                &&& next == (IsoTpModel {
                    vars: Vars { frame_idle: false, ..link.vars },
                    ..link
                })
            }
        }),
{
    law_flow_control_on_the_wire();
}

/// A consecutive frame with the number that is due adds up to seven bytes. The
/// last one hands the message up; any other gives the sender another second.
/// One with another number loses the message, and one that belongs to no
/// message is ignored.
pub proof fn law_consecutive_frame_is_received(link: IsoTpModel, id: Id, data: Seq<u8>)
    requires
        link.wf(),
        !link.overruns(id, data, true),
        id == link.vars.rx_id,
        data.len() == 8,
        0x20 <= data[0] <= 0x2F,
    ensures
        ({
            let (next, output) = link.frame_received(id, data, true);
            let offset = link.vars.rx_offset as int;
            let left = link.vars.rx_len - offset;
            if !(link.vars.state is RxAssembling) {
                next == link && output == quiet()
            } else if data[0] - 0x20 != link.vars.rx_next_sn {
                &&& next.vars.state is Idle && next.rx_buffer is None
                &&& output.disarm
                &&& output.upcall == Some(
                    Upcall::Received {
                        buffer: link.rx_buffer->0,
                        len: 0,
                        result: Err(ErrorCode::FAIL),
                    },
                )
            } else if left <= 7 {
                &&& next.vars.state is Idle && next.rx_buffer is None
                &&& output.disarm && output.send is None
                &&& output.upcall matches Some(Upcall::Received { buffer, len, result })
                &&& len == link.vars.rx_len && result is Ok
                &&& buffer.len() == link.rx_buffer->0.len()
                &&& forall|i: int|
                    0 <= i < buffer.len() ==> #[trigger] buffer[i] == if offset <= i < offset
                        + left {
                        data[1 + i - offset]
                    } else {
                        link.rx_buffer->0[i]
                    }
            } else {
                &&& output.arm == Some(1000u32)
                &&& output.send is None && output.upcall is None && !output.disarm
                &&& next.vars.state is RxAssembling
                &&& next.vars.rx_len == link.vars.rx_len
                &&& next.vars.rx_offset == offset + 7
                &&& next.vars.rx_next_sn == (link.vars.rx_next_sn + 1) % 16
                &&& next.rx_buffer matches Some(buffer)
                &&& buffer.len() == link.rx_buffer->0.len()
                &&& forall|i: int|
                    0 <= i < buffer.len() ==> #[trigger] buffer[i] == if offset <= i < offset
                        + 7 {
                        data[1 + i - offset]
                    } else {
                        link.rx_buffer->0[i]
                    }
            }
        }),
{
}

/// A frame of no known kind, and flow control that nobody waits for, change
/// nothing.
pub proof fn law_stray_frames_are_ignored(link: IsoTpModel, id: Id, data: Seq<u8>)
    requires
        data.len() == 8,
        data[0] >= 0x40 || data[0] >= 0x30 && !(link.vars.state is TxWaitFlowControl),
    ensures
        link.frame_received(id, data, true) == (link, quiet()),
{
}

/// A frame that the driver would not take, or could not send, ends the
/// transmission it belongs to, and the scratch frame is here again.
pub proof fn law_failed_frame_ends_the_transmission(link: IsoTpModel)
    requires
        link.wf(),
        link.tx_buffer is Some,
    ensures
        ({
            let failure = Some(
                Upcall::Transmitted { buffer: link.tx_buffer->0, result: Err(ErrorCode::FAIL) },
            );
            &&& link.send_refused().1.upcall == failure
            &&& link.send_refused().1.disarm
            &&& link.send_refused().0.vars.state is Idle
            &&& link.send_refused().0.vars.frame_idle
            &&& link.send_refused().0.tx_buffer is None
            &&& link.transmit_complete(false).1.upcall == failure
            &&& link.transmit_complete(false).1.disarm
            &&& link.transmit_complete(false).0.vars.state is Idle
            &&& link.transmit_complete(false).0.vars.frame_idle
            &&& link.transmit_complete(false).0.tx_buffer is None
        }),
{
}

/// The buffer handed over is the one that the next message is assembled into.
pub proof fn law_buffer_is_parked(link: IsoTpModel, buffer: Seq<u8>)
    ensures
        ({
            let next = link.receive_message(buffer);
            &&& next.rx_buffer == Some(buffer)
            &&& next.tx_buffer == link.tx_buffer && next.waiting == link.waiting
            &&& next.vars == (Vars { rx_offset: 0, rx_len: 0, ..link.vars })
        }),
{
}

/// Which frames the link must not be given: a first frame that announces less
/// than the six bytes it carries, to a buffer that is as short as that, and the
/// frame that is due after one that announced less than it carried.
pub proof fn law_frames_that_overrun(link: IsoTpModel, id: Id, data: Seq<u8>, ok: bool)
    requires
        link.wf(),
        data.len() == 8,
    ensures
        ({
            let len = data[0] as int % 16 * 256 + data[1];
            let opening = {
                &&& 0x10 <= data[0] <= 0x1F
                &&& ready_for(link, len)
                &&& link.rx_buffer->0.len() < 6
            };
            let going_on = {
                &&& 0x20 <= data[0] <= 0x2F
                &&& link.vars.state is RxAssembling
                &&& data[0] - 0x20 == link.vars.rx_next_sn
                &&& link.vars.rx_len < link.vars.rx_offset
            };
            link.overruns(id, data, ok) <==> ok && id == link.vars.rx_id && (opening || going_on)
        }),
{
}

/// No frame of a message is one of those: a message that is long enough to be
/// segmented announces more than its first frame carries.
pub proof fn law_segments_never_overrun(link: IsoTpModel, id: Id, message: Seq<u8>, k: int)
    requires
        link.wf(),
        1 <= message.len() <= 4095,
        0 <= k < segment_count(message),
        link.vars.state is RxAssembling ==> link.vars.rx_offset <= link.vars.rx_len,
    ensures
        !link.overruns(id, segment(message, k), true),
{
    law_segments_on_the_wire(message, k);
    law_frames_that_overrun(link, id, segment(message, k), true);
}

/// Leave to go on, while a first frame still waits for the driver, answers
/// something else and is ignored.
pub proof fn law_early_grant_is_ignored(link: IsoTpModel, id: Id, data: Seq<u8>)
    requires
        link.waiting is Some,
        data.len() == 8,
        data[0] == 0x30,
    ensures
        link.frame_received(id, data, true) == (link, quiet()),
{
}

/// A driver that is busy only delays a frame: a grant, or the end of a pause,
/// does what it does otherwise, but that the frame waits instead of going out.
pub proof fn law_busy_driver_only_delays(link: IsoTpModel, id: Id, data: Seq<u8>)
    requires
        link.wf(),
        !link.vars.frame_idle,
        link.waiting is None,
        data.len() == 8,
    ensures
        ({
            let free = IsoTpModel { vars: Vars { frame_idle: true, ..link.vars }, ..link };
            let (granted, grant) = free.frame_received(id, data, true);
            let (delayed, answer) = link.frame_received(id, data, true);
            let (resumed, frame) = free.alarm();
            let (held, later) = link.alarm();
            &&& data[0] == 0x30 && link.vars.state is TxWaitFlowControl && id == link.vars.rx_id
                ==> {
                &&& delayed == (IsoTpModel { waiting: grant.send, ..granted })
                &&& answer.send is None && answer.disarm == grant.disarm
                &&& answer.arm == grant.arm && answer.upcall == grant.upcall
            }
            &&& link.vars.state is TxSeparation ==> {
                &&& held == (IsoTpModel { waiting: frame.send, ..resumed })
                &&& later.send is None && later.disarm == frame.disarm
                &&& later.arm == frame.arm && later.upcall == frame.upcall
            }
        }),
{
}

} // verus!
