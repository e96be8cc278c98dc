//! ISO-TP: one end against the other, and against the wire.

use bootloader::can_transport::CanTransport;
use bootloader::error::ErrorCode;
use bootloader::isotp::frames::{id_raw, Id, Output, Upcall, MAX_MESSAGE_LEN};
use bootloader::isotp::link::IsoTp;

const REQUEST: u32 = 0x18DA_41F1;
const RESPONSE: u32 = 0x18DA_F141;
const OVERFLOW: [u8; 8] = [0x32, 0, 0, 0, 0, 0, 0, 0];

fn board() -> IsoTp {
    IsoTp::new(Id::Extended(REQUEST), Id::Extended(RESPONSE))
}

fn tester() -> IsoTp {
    IsoTp::new(Id::Extended(RESPONSE), Id::Extended(REQUEST))
}

fn pattern(len: usize) -> Vec<u8> {
    (0..len).map(|i| (i * 13 + i / 100) as u8).collect()
}

/// Carry a message from `sender` to `receiver`; the frames that went over, and
/// what came out at either end.
fn carry(
    sender: &mut IsoTp,
    receiver: &mut IsoTp,
    message: &[u8],
) -> (Vec<[u8; 8]>, Vec<u8>, bool) {
    let to_receiver = sender.tx_id();
    let to_sender = receiver.tx_id();
    let mut frames = Vec::new();
    let mut got = Vec::new();
    let mut done = false;
    let mut outputs = match sender.transmit_message(message.to_vec(), message.len()) {
        Ok(output) => vec![output],
        Err(_) => panic!(),
    };
    while let Some(output) = outputs.pop() {
        if let Some(Upcall::Transmitted { buffer, result }) = output.upcall {
            assert_eq!(result, Ok(()));
            assert_eq!(buffer, message);
            done = true;
        }
        if let Some(frame) = output.send {
            frames.push(frame);
            let heard = receiver.frame_received(to_receiver, &frame, Ok(()));
            if let Some(Upcall::Received { buffer, len, result }) = heard.upcall {
                assert_eq!(result, Ok(()));
                got = buffer[..len].to_vec();
            }
            outputs.push(sender.transmit_complete(Ok(())));
            if let Some(flow) = heard.send {
                receiver.transmit_complete(Ok(()));
                outputs.push(sender.frame_received(to_sender, &flow, Ok(())));
            }
        }
    }
    (frames, got, done)
}

#[test]
fn single_frame_message() {
    let mut sender = tester();
    let mut receiver = board();
    assert!(receiver.receive_message(vec![0; 600]).is_ok());
    let (frames, got, done) = carry(&mut sender, &mut receiver, &[0x10, 0x02]);
    assert_eq!(frames, [[0x02, 0x10, 0x02, 0, 0, 0, 0, 0]]);
    assert_eq!(got, [0x10, 0x02]);
    assert!(done);
}

#[test]
fn messages_of_every_length_cross() {
    for len in [1, 6, 7, 8, 13, 14, 20, 21, 100, 514, 600, MAX_MESSAGE_LEN] {
        let mut sender = tester();
        let mut receiver = board();
        assert!(receiver.receive_message(vec![0; MAX_MESSAGE_LEN]).is_ok());
        let message = pattern(len);
        let (frames, got, done) = carry(&mut sender, &mut receiver, &message);
        assert_eq!(got, message);
        assert!(done);
        let expected = if len <= 7 { 1 } else { 1 + (len - 6 + 6) / 7 };
        assert_eq!(frames.len(), expected);
    }
}

#[test]
fn long_message_frames() {
    let mut sender = tester();
    let mut receiver = board();
    assert!(receiver.receive_message(vec![0; 600]).is_ok());
    let (frames, _, _) = carry(&mut sender, &mut receiver, &pattern(0x123));
    assert_eq!(&frames[0][..2], [0x11, 0x23]);
    assert_eq!(frames[1][0], 0x21);
    assert_eq!(frames[15][0], 0x2F);
    assert_eq!(frames[16][0], 0x20);
}

#[test]
fn transmit_errors() {
    let mut link = board();
    match link.transmit_message(vec![0; 5], 6) {
        Err((error, buffer)) => {
            assert_eq!(error, ErrorCode::SIZE);
            assert_eq!(buffer.len(), 5);
        }
        Ok(_) => panic!(),
    }
    match link.transmit_message(vec![0; 5000], MAX_MESSAGE_LEN + 1) {
        Err((error, _)) => assert_eq!(error, ErrorCode::SIZE),
        Ok(_) => panic!(),
    }
    assert!(link.transmit_message(vec![0; 5], 5).is_ok());
    match link.transmit_message(vec![0; 5], 5) {
        Err((error, _)) => assert_eq!(error, ErrorCode::BUSY),
        Ok(_) => panic!(),
    }
}

#[test]
fn receive_errors() {
    let mut link = board();
    assert!(link.receive_message(vec![0; 10]).is_ok());
    match link.receive_message(vec![0; 11]) {
        Err((error, buffer)) => {
            assert_eq!(error, ErrorCode::BUSY);
            assert_eq!(buffer.len(), 11);
        }
        Ok(_) => panic!(),
    }
    assert_eq!(link.start_receive(), Ok(()));
    assert_eq!(link.start_receive(), Err(ErrorCode::ALREADY));
    link.stopped();
    assert_eq!(link.start_receive(), Ok(()));
}

fn first_frame(len: usize) -> [u8; 8] {
    [0x10 | (len >> 8) as u8, len as u8, 1, 2, 3, 4, 5, 6]
}

#[test]
fn lost_frame_abandons_the_message() {
    let mut link = board();
    assert!(link.receive_message(vec![0; 600]).is_ok());
    let id = Id::Extended(REQUEST);
    let output = link.frame_received(id, &first_frame(30), Ok(()));
    assert_eq!(output.send, Some([0x30, 0, 0, 0, 0, 0, 0, 0]));
    assert_eq!(output.arm, Some(1000));
    link.transmit_complete(Ok(()));
    let output = link.frame_received(id, &[0x21, 7, 8, 9, 10, 11, 12, 13], Ok(()));
    assert_eq!(output.arm, Some(1000));
    let output = link.frame_received(id, &[0x23, 0, 0, 0, 0, 0, 0, 0], Ok(()));
    assert!(output.disarm);
    match output.upcall {
        Some(Upcall::Received { buffer, len, result }) => {
            assert_eq!(len, 0);
            assert_eq!(result, Err(ErrorCode::FAIL));
            assert_eq!(buffer.len(), 600);
        }
        _ => panic!(),
    }
}

fn no_output(output: Output<[u8; 8], Vec<u8>>) -> bool {
    !output.disarm && output.send.is_none() && output.arm.is_none() && output.upcall.is_none()
}

#[test]
fn foreign_and_faulty_frames_are_ignored() {
    let mut link = board();
    assert!(link.receive_message(vec![0; 600]).is_ok());
    let data = [0x01, 9, 0, 0, 0, 0, 0, 0];
    assert!(no_output(link.frame_received(Id::Extended(0x123), &data, Ok(()))));
    assert!(no_output(link.frame_received(Id::Extended(REQUEST), &data, Err(ErrorCode::FAIL))));
    // Reserved kinds, a single frame of length zero, a stray consecutive frame.
    let id = Id::Extended(REQUEST);
    assert!(no_output(link.frame_received(id, &[0x40, 0, 0, 0, 0, 0, 0, 0], Ok(()))));
    assert!(no_output(link.frame_received(id, &[0x00, 0, 0, 0, 0, 0, 0, 0], Ok(()))));
    assert!(no_output(link.frame_received(id, &[0x21, 0, 0, 0, 0, 0, 0, 0], Ok(()))));
    assert!(no_output(link.frame_received(id, &[0x30, 0, 0, 0, 0, 0, 0, 0], Ok(()))));
    assert_eq!(id_raw(Id::Standard(0x7E0)), 0x7E0);
}

#[test]
fn identifiers_of_another_format_are_foreign() {
    let mut link = IsoTp::new(Id::Extended(0x123), Id::Extended(0x124));
    assert!(link.receive_message(vec![0; 8]).is_ok());
    let data = [0x02, 0x3E, 0x00, 0, 0, 0, 0, 0];
    assert!(no_output(link.frame_received(Id::Standard(0x123), &data, Ok(()))));
    assert!(!link.overruns(Id::Standard(0x123), &first_frame(4), Ok(())));
    // The buffer is still parked, and the link's own identifier is heard.
    assert!(link.receive_message(vec![0; 8]).is_err());
    match link.frame_received(Id::Extended(0x123), &data, Ok(())).upcall {
        Some(Upcall::Received { buffer, len, result }) => {
            assert_eq!((&buffer[..len], result), (&[0x3E, 0x00][..], Ok(())));
        }
        _ => panic!(),
    }
    let mut link = IsoTp::new(Id::Standard(0x7E0), Id::Standard(0x7E8));
    assert!(link.receive_message(vec![0; 8]).is_ok());
    assert!(no_output(link.frame_received(Id::Extended(0x7E0), &data, Ok(()))));
    assert!(link.frame_received(Id::Standard(0x7E0), &data, Ok(())).upcall.is_some());
}

#[test]
fn message_goes_out_whole_under_any_grant() {
    let id = Id::Extended(REQUEST);
    for len in [8, 20, 100, 300] {
        for block_size in [0, 1, 3, 255] {
            for separation in [0, 10, 0xF5] {
                let message = pattern(len);
                let mut sender = board();
                let mut receiver = tester();
                assert!(receiver.receive_message(vec![0; 300]).is_ok());
                let mut output = match sender.transmit_message(message.clone(), len) {
                    Ok(output) => output,
                    Err(_) => panic!(),
                };
                let mut got = Vec::new();
                loop {
                    if let Some(Upcall::Transmitted { result, .. }) = output.upcall {
                        assert_eq!(result, Ok(()));
                        break;
                    }
                    output = match output.send {
                        Some(frame) => {
                            let heard =
                                receiver.frame_received(Id::Extended(RESPONSE), &frame, Ok(()));
                            receiver.transmit_complete(Ok(()));
                            if let Some(Upcall::Received { buffer, len, result }) = heard.upcall {
                                assert_eq!(result, Ok(()));
                                got = buffer[..len].to_vec();
                            }
                            let done = sender.transmit_complete(Ok(()));
                            if done.send.is_none() && done.upcall.is_none() && done.arm.is_none() {
                                // The first frame is out.
                                sender.frame_received(
                                    id,
                                    &[0x30, block_size, separation, 0, 0, 0, 0, 0],
                                    Ok(()),
                                )
                            } else {
                                done
                            }
                        }
                        None if output.arm == Some(1000) => sender.frame_received(
                            id,
                            &[0x30, block_size, separation, 0, 0, 0, 0, 0],
                            Ok(()),
                        ),
                        None => sender.alarm(),
                    };
                }
                assert_eq!(got, message);
            }
        }
    }
}

#[test]
fn grant_before_the_first_frame_is_done_skips_nothing() {
    let id = Id::Extended(REQUEST);
    let mut link = board();
    let message = pattern(20);
    assert!(link.transmit_message(message.clone(), 20).is_ok());
    // The driver has not reported the first frame yet.
    let output = link.frame_received(id, &[0x30, 0, 0, 0, 0, 0, 0, 0], Ok(()));
    assert_eq!((output.disarm, output.send), (true, None));
    let frame = link.transmit_complete(Ok(())).send.unwrap();
    assert_eq!(frame[0], 0x21);
    assert_eq!(&frame[1..], &message[6..13]);
    let frame = link.transmit_complete(Ok(())).send.unwrap();
    assert_eq!(frame[0], 0x22);
    assert_eq!(&frame[1..], &message[13..20]);
    assert!(link.transmit_complete(Ok(())).upcall.is_some());
}

#[test]
fn first_frame_during_separation_skips_nothing() {
    let id = Id::Extended(REQUEST);
    let mut link = board();
    let message = pattern(20);
    assert!(link.transmit_message(message.clone(), 20).is_ok());
    link.transmit_complete(Ok(()));
    assert_eq!(
        link.frame_received(id, &[0x30, 0, 10, 0, 0, 0, 0, 0], Ok(())).send.unwrap()[0],
        0x21
    );
    assert_eq!(link.transmit_complete(Ok(())).arm, Some(10));
    // It is turned down, and the driver is busy with that when time is up.
    let output = link.frame_received(id, &first_frame(30), Ok(()));
    assert_eq!(output.send, Some(OVERFLOW));
    assert!(no_output(link.frame_received(id, &first_frame(30), Ok(()))));
    assert!(no_output(link.alarm()));
    let frame = link.transmit_complete(Ok(())).send.unwrap();
    assert_eq!(frame[0], 0x22);
    assert_eq!(&frame[1..], &message[13..20]);
    match link.transmit_complete(Ok(())).upcall {
        Some(Upcall::Transmitted { buffer, result }) => {
            assert_eq!((buffer, result), (message, Ok(())));
        }
        _ => panic!(),
    }
}

/// A link whose driver is busy with an overflow.
fn busy_board() -> IsoTp {
    let mut link = board();
    let output = link.frame_received(Id::Extended(REQUEST), &first_frame(30), Ok(()));
    assert_eq!(output.send, Some(OVERFLOW));
    link
}

#[test]
fn short_message_waits_for_the_driver() {
    let mut link = busy_board();
    match link.transmit_message(vec![5, 6, 7], 3) {
        Ok(output) => assert!(no_output(output)),
        Err(_) => panic!(),
    }
    let output = link.transmit_complete(Ok(()));
    assert_eq!(output.send, Some([0x03, 5, 6, 7, 0, 0, 0, 0]));
    assert!(output.upcall.is_none());
    match link.transmit_complete(Ok(())).upcall {
        Some(Upcall::Transmitted { buffer, result }) => {
            assert_eq!((buffer, result), (vec![5, 6, 7], Ok(())));
        }
        _ => panic!(),
    }
}

#[test]
fn long_message_waits_for_the_driver() {
    let id = Id::Extended(REQUEST);
    let mut link = busy_board();
    let message = pattern(20);
    match link.transmit_message(message.clone(), 20) {
        Ok(output) => assert_eq!((output.arm, output.send), (Some(1000), None)),
        Err(_) => panic!(),
    }
    // A grant for what is not out yet answers something else.
    assert!(no_output(link.frame_received(id, &[0x30, 0, 0, 0, 0, 0, 0, 0], Ok(()))));
    let frame = link.transmit_complete(Ok(())).send.unwrap();
    assert_eq!(&frame[..2], &[0x10, 20]);
    assert_eq!(&frame[2..], &message[..6]);
    assert!(no_output(link.transmit_complete(Ok(()))));
    let output = link.frame_received(id, &[0x30, 0, 0, 0, 0, 0, 0, 0], Ok(()));
    assert_eq!(output.send.unwrap()[0], 0x21);
}

#[test]
fn message_that_times_out_is_not_sent_later() {
    let mut link = busy_board();
    assert!(link.transmit_message(pattern(20), 20).is_ok());
    match link.alarm().upcall {
        Some(Upcall::Transmitted { result, .. }) => assert_eq!(result, Err(ErrorCode::FAIL)),
        _ => panic!(),
    }
    assert!(no_output(link.transmit_complete(Ok(()))));
}

#[test]
fn clear_to_send_waits_for_the_driver() {
    let id = Id::Extended(REQUEST);
    for fared in [Ok(()), Err(ErrorCode::FAIL)] {
        let mut link = busy_board();
        assert!(link.receive_message(vec![0; 600]).is_ok());
        let output = link.frame_received(id, &first_frame(30), Ok(()));
        assert_eq!((output.arm, output.send), (Some(1000), None));
        let output = link.transmit_complete(fared);
        assert_eq!(output.send, Some([0x30, 0, 0, 0, 0, 0, 0, 0]));
        assert!(no_output(link.transmit_complete(Ok(()))));
    }
}

#[test]
fn message_too_long_overflows() {
    let mut link = board();
    let id = Id::Extended(REQUEST);
    let overflow = Some(OVERFLOW);
    // No buffer at all.
    assert_eq!(link.frame_received(id, &first_frame(30), Ok(())).send, overflow);
    link.transmit_complete(Ok(()));
    assert!(link.receive_message(vec![0; 29]).is_ok());
    assert_eq!(link.frame_received(id, &first_frame(30), Ok(())).send, overflow);
    link.transmit_complete(Ok(()));
    // The escape encoding.
    assert_eq!(link.frame_received(id, &first_frame(0), Ok(())).send, overflow);
}

#[test]
fn half_duplex() {
    let mut link = board();
    let id = Id::Extended(REQUEST);
    assert!(link.receive_message(vec![0; 600]).is_ok());
    assert!(link.transmit_message(pattern(100), 100).is_ok());
    link.transmit_complete(Ok(()));
    assert!(no_output(link.frame_received(id, &[0x01, 9, 0, 0, 0, 0, 0, 0], Ok(()))));
    assert!(no_output(link.frame_received(id, &[0x21, 9, 0, 0, 0, 0, 0, 0], Ok(()))));
    for len in [30, 0, 601] {
        let output = link.frame_received(id, &first_frame(len), Ok(()));
        assert_eq!(output.send, Some(OVERFLOW));
        // The driver has the frame.
        assert!(no_output(link.frame_received(id, &first_frame(len), Ok(()))));
        assert!(no_output(link.transmit_complete(Ok(()))));
    }

    let mut link = board();
    assert!(link.receive_message(vec![0; 600]).is_ok());
    link.frame_received(id, &first_frame(30), Ok(()));
    match link.transmit_message(vec![0; 5], 5) {
        Err((error, _)) => assert_eq!(error, ErrorCode::BUSY),
        Ok(_) => panic!(),
    }
}

#[test]
fn block_size_and_separation_time_are_obeyed() {
    let mut link = board();
    let id = Id::Extended(REQUEST);
    let output = match link.transmit_message(pattern(40), 40) {
        Ok(output) => output,
        Err(_) => panic!(),
    };
    assert_eq!(output.arm, Some(1000));
    link.transmit_complete(Ok(()));
    // Two frames, ten milliseconds apart.
    let output = link.frame_received(id, &[0x30, 2, 10, 0, 0, 0, 0, 0], Ok(()));
    assert!(output.disarm);
    assert_eq!(output.send.unwrap()[0], 0x21);
    let output = link.transmit_complete(Ok(()));
    assert_eq!((output.arm, output.send), (Some(10), None));
    assert_eq!(link.alarm().send.unwrap()[0], 0x22);
    // The block is exhausted.
    let output = link.transmit_complete(Ok(()));
    assert_eq!((output.arm, output.send), (Some(1000), None));
    // Not yet.
    let output = link.frame_received(id, &[0x31, 0, 0, 0, 0, 0, 0, 0], Ok(()));
    assert_eq!((output.arm, output.send), (Some(1000), None));
    // 100 us rounds up to a millisecond.
    let output = link.frame_received(id, &[0x30, 0, 0xF1, 0, 0, 0, 0, 0], Ok(()));
    assert_eq!(output.send.unwrap()[0], 0x23);
    assert_eq!(link.transmit_complete(Ok(())).arm, Some(1));
}

#[test]
fn overflow_and_silence_end_a_transmission() {
    let id = Id::Extended(REQUEST);
    for flow in [0x32, 0x37] {
        let mut link = board();
        assert!(link.transmit_message(pattern(40), 40).is_ok());
        link.transmit_complete(Ok(()));
        match link.frame_received(id, &[flow, 0, 0, 0, 0, 0, 0, 0], Ok(())).upcall {
            Some(Upcall::Transmitted { buffer, result }) => {
                assert_eq!(result, Err(ErrorCode::FAIL));
                assert_eq!(buffer, pattern(40));
            }
            _ => panic!(),
        }
    }
    let mut link = board();
    assert!(link.transmit_message(pattern(40), 40).is_ok());
    link.transmit_complete(Ok(()));
    match link.alarm().upcall {
        Some(Upcall::Transmitted { result, .. }) => assert_eq!(result, Err(ErrorCode::FAIL)),
        _ => panic!(),
    }
    assert!(no_output(link.alarm()));
}

#[test]
fn silence_ends_a_reception() {
    let mut link = board();
    assert!(link.receive_message(vec![0; 600]).is_ok());
    link.frame_received(Id::Extended(REQUEST), &first_frame(30), Ok(()));
    match link.alarm().upcall {
        Some(Upcall::Received { len, result, .. }) => {
            assert_eq!((len, result), (0, Err(ErrorCode::FAIL)));
        }
        _ => panic!(),
    }
}

#[test]
fn failing_driver_ends_a_transmission() {
    let mut link = board();
    assert!(link.transmit_message(vec![1; 3], 3).is_ok());
    match link.send_refused().upcall {
        Some(Upcall::Transmitted { result, .. }) => assert_eq!(result, Err(ErrorCode::FAIL)),
        _ => panic!(),
    }
    assert!(link.transmit_message(vec![1; 3], 3).is_ok());
    match link.transmit_complete(Err(ErrorCode::FAIL)).upcall {
        Some(Upcall::Transmitted { result, .. }) => assert_eq!(result, Err(ErrorCode::FAIL)),
        _ => panic!(),
    }
    assert!(no_output(link.transmit_complete(Err(ErrorCode::FAIL))));
}

#[test]
fn can_transport_forwards() {
    let mut transport = CanTransport::new(board());
    assert!(!transport.enabled(Err(ErrorCode::OFF)));
    assert!(transport.enabled(Ok(())));
    assert!(!transport.enabled(Ok(())));
    assert!(transport.receive_message(vec![0; 8]).is_ok());
    assert!(transport.receive_message(vec![0; 8]).is_err());
    let output = match transport.transmit_message(vec![0xAB], 1) {
        Ok(output) => output,
        Err(_) => panic!(),
    };
    assert_eq!(output.send, Some([0x01, 0xAB, 0, 0, 0, 0, 0, 0]));
    match transport.isotp().transmit_complete(Ok(())).upcall {
        Some(Upcall::Transmitted { buffer, result }) => {
            assert_eq!((buffer, result), (vec![0xAB], Ok(())));
        }
        _ => panic!(),
    }
}

#[test]
fn first_frame_that_announces_less_than_it_carries() {
    let id = Id::Extended(REQUEST);
    let short = first_frame(4);
    // It does not fit a buffer as short as what it announces.
    let mut link = board();
    assert!(link.receive_message(vec![0; 5]).is_ok());
    assert!(link.overruns(id, &short, Ok(())));
    assert!(!link.overruns(Id::Extended(1), &short, Ok(())));
    assert!(!link.overruns(id, &short, Err(ErrorCode::FAIL)));
    assert!(!link.overruns(id, &first_frame(30), Ok(())));

    // In a longer one it starts a reception that only silence, a gap or a new
    // message can end.
    let mut link = board();
    assert!(link.receive_message(vec![0; 600]).is_ok());
    assert!(!link.overruns(id, &short, Ok(())));
    let output = link.frame_received(id, &short, Ok(()));
    assert_eq!(output.send, Some([0x30, 0, 0, 0, 0, 0, 0, 0]));
    link.transmit_complete(Ok(()));
    assert!(link.overruns(id, &[0x21, 0, 0, 0, 0, 0, 0, 0], Ok(())));
    assert!(!link.overruns(id, &[0x22, 0, 0, 0, 0, 0, 0, 0], Ok(())));
    match link.alarm().upcall {
        Some(Upcall::Received { len, result, .. }) => {
            assert_eq!((len, result), (0, Err(ErrorCode::FAIL)));
        }
        _ => panic!(),
    }
}
