//! Buffers and who has them: the dual link, the UART link, the flash router
//! and the flash adapter.

use bootloader::dual_transport::{Arrival, DualPort, DualTransport, Listening, Port};
use bootloader::error::ErrorCode;
use bootloader::flash_direct::{Sam71FlashDirect, PAGE_COUNT, PAGE_SIZE};
use bootloader::flash_router::{FlashPort, FlashRouter, Which};
use bootloader::uart_transport::{Parity, UartTransport};

fn port_of(request: &Option<Listening<Vec<u8>>>) -> Option<Port> {
    request.as_ref().map(|r| r.port)
}

#[test]
fn both_sides_listen_from_the_start() {
    let mut dual = DualTransport::new(vec![2]);
    let first = dual.receive_message(vec![1]);
    assert!(port_of(&first) == Some(Port::A));
    assert_eq!(first.unwrap().buffer, [1]);
    let second = dual.listen_accepted();
    assert!(port_of(&second) == Some(Port::B));
    assert_eq!(second.unwrap().buffer, [2]);
    assert!(dual.listen_accepted().is_none());
}

fn listening() -> (DualTransport, DualPort, DualPort) {
    let mut dual = DualTransport::new(vec![2]);
    dual.receive_message(vec![1]);
    dual.listen_accepted();
    dual.listen_accepted();
    (dual, DualPort::new(Port::A), DualPort::new(Port::B))
}

#[test]
fn response_goes_to_the_asker() {
    let (mut dual, a, b) = listening();
    match b.message_received(&mut dual, vec![2], 1, Ok(())) {
        Arrival::Deliver { buffer, len, result } => {
            assert_eq!((buffer, len, result), (vec![2], 1, Ok(())));
        }
        _ => panic!(),
    }
    assert!(dual.transmit_message() == Port::B);
    // The other side is dropped meanwhile, and listens again.
    match a.message_received(&mut dual, vec![1], 1, Ok(())) {
        Arrival::Listen { port, buffer } => {
            assert!(port == Port::A);
            assert_eq!(buffer, [1]);
        }
        _ => panic!(),
    }
    assert!(dual.transmit_message() == Port::B);
    // Asking for the next message ends the conversation.
    let request = dual.receive_message(vec![2]);
    assert!(port_of(&request) == Some(Port::B));
    dual.listen_accepted();
    match a.message_received(&mut dual, vec![1], 1, Ok(())) {
        Arrival::Deliver { .. } => {}
        _ => panic!(),
    }
    assert!(dual.transmit_message() == Port::A);
}

#[test]
fn side_that_spoke_out_of_turn_listens_again() {
    let (mut dual, a, b) = listening();
    match a.message_received(&mut dual, vec![1], 1, Ok(())) {
        Arrival::Deliver { .. } => {}
        _ => panic!(),
    }
    match b.message_received(&mut dual, vec![2], 1, Ok(())) {
        Arrival::Listen { port, .. } => assert!(port == Port::B),
        _ => panic!(),
    }
}

#[test]
fn refused_buffer_is_kept_spare() {
    let mut dual = DualTransport::new(vec![2]);
    let request = dual.receive_message(vec![1]).unwrap();
    assert!(request.port == Port::A);
    // The side would not listen; its buffer is offered once more.
    let again = dual.listen_refused(Port::A, request.buffer);
    assert!(port_of(&again) == Some(Port::A));
    assert_eq!(again.as_ref().unwrap().buffer, [1]);
    assert!(dual.listen_refused(Port::A, again.unwrap().buffer).is_none());
}

#[test]
fn configuring_reports_the_first_error() {
    let off = Err(ErrorCode::OFF);
    let busy = Err(ErrorCode::BUSY);
    assert_eq!(DualTransport::configure(Ok(()), Ok(())), Ok(()));
    assert_eq!(DualTransport::configure(off, Ok(())), off);
    assert_eq!(DualTransport::configure(Ok(()), busy), busy);
    assert_eq!(DualTransport::configure(off, busy), off);
}

#[test]
fn uart_parameters_and_reception() {
    let mut uart = UartTransport::new();
    let parameters = uart.configure();
    assert_eq!(parameters.baud_rate, 115200);
    assert_eq!((parameters.data_bits, parameters.stop_bits), (8, 1));
    assert!(parameters.parity == Parity::Unused && !parameters.hw_flow_control);
    let request = uart.receive_message(vec![0; 600]);
    assert_eq!((request.len, request.timeout), (600, 250));
    assert_eq!(uart.receive_refused(ErrorCode::BUSY, request.buffer).0, ErrorCode::BUSY);
    assert_eq!(uart.received_buffer(vec![1, 2, 3], 2), (vec![1, 2, 3], 2));
}

#[test]
fn completion_goes_to_the_port_that_asked() {
    let mut router = FlashRouter::new();
    let a = FlashPort::new(Which::A);
    let b = FlashPort::new(Which::B);
    assert_eq!(router.with_owner(), None);
    router.set_client(Which::A, 10);
    router.set_client(Which::B, 20);
    assert_eq!(router.with_owner(), Some(10));
    b.claim(&mut router);
    assert_eq!(router.with_owner(), Some(20));
    router.set_client(Which::A, 11);
    assert_eq!(router.with_owner(), Some(20));
    a.claim(&mut router);
    assert_eq!(router.with_owner(), Some(11));
}

#[test]
fn adapter_reads_out_of_flash() {
    let adapter = Sam71FlashDirect::new(vec![0; PAGE_SIZE]);
    let flash: Vec<u8> = (0..PAGE_COUNT * PAGE_SIZE).map(|i| (i / 512) as u8).collect();
    match adapter.read_page(300, vec![0; PAGE_SIZE], &flash) {
        Ok(page) => assert_eq!(page, vec![300usize as u8; PAGE_SIZE]),
        Err(_) => panic!(),
    }
    match adapter.read_page(PAGE_COUNT, vec![9; PAGE_SIZE], &flash) {
        Err((error, page)) => {
            assert_eq!(error, ErrorCode::INVAL);
            assert_eq!(page, vec![9; PAGE_SIZE]);
        }
        Ok(_) => panic!(),
    }
}

#[test]
fn adapter_lends_the_controller_its_own_page() {
    let mut adapter = Sam71FlashDirect::new(vec![0; PAGE_SIZE]);
    let efc = match adapter.write_page(vec![5; PAGE_SIZE]) {
        Ok(efc) => efc,
        Err(_) => panic!(),
    };
    assert_eq!(efc, vec![5; PAGE_SIZE]);
    assert_eq!(adapter.write_complete(efc), Some(vec![5; PAGE_SIZE]));
    let efc = match adapter.write_page(vec![6; PAGE_SIZE]) {
        Ok(efc) => efc,
        Err(_) => panic!(),
    };
    assert_eq!(adapter.write_refused(efc), (ErrorCode::FAIL, vec![6; PAGE_SIZE]));
    // Busy while the controller has its page.
    let efc = match adapter.write_page(vec![7; PAGE_SIZE]) {
        Ok(efc) => efc,
        Err(_) => panic!(),
    };
    match adapter.write_page(vec![8; PAGE_SIZE]) {
        Err((error, page)) => {
            assert_eq!(error, ErrorCode::BUSY);
            assert_eq!(page, vec![8; PAGE_SIZE]);
        }
        Ok(_) => panic!(),
    }
    assert_eq!(adapter.write_complete(efc), None);
}
