//! The tockloader protocol server against a flash in memory.

use bootloader::actions::Action;
use bootloader::bootloader::entry::{BootloaderEnterer, Entry};
use bootloader::bootloader::protocol::{Command, Decoded, Decoder, Reception, BUF_LEN};
use bootloader::bootloader::server::Bootloader;
use bootloader::error::ErrorCode;

const PAGE: usize = 512;
const FLASH: usize = 0x4_0000;
const FLAGS: usize = 0xE000;
const ATTRIBUTES: usize = 0xE200;
const PROTECTED: u32 = 0x1_0000;

struct Bench {
    server: Bootloader,
    flash: Vec<u8>,
    buffer: Option<Vec<u8>>,
    writes: Vec<usize>,
    erases: Vec<usize>,
    resets: usize,
}

fn bench_with(buffer: usize) -> Bench {
    let mut server =
        Bootloader::new(vec![0; PAGE], vec![0; buffer], FLAGS, ATTRIBUTES, PROTECTED);
    let buffer = match server.start() {
        Action::Listen { buffer } => Some(buffer),
        _ => None,
    };
    Bench {
        server,
        flash: (0..FLASH).map(|i| (i / 3) as u8).collect(),
        buffer,
        writes: Vec::new(),
        erases: Vec::new(),
        resets: 0,
    }
}

fn bench() -> Bench {
    bench_with(BUF_LEN)
}

impl Bench {
    fn settle(&mut self, first: Action<Vec<u8>>) -> Vec<Vec<u8>> {
        let mut sent = Vec::new();
        let mut action = first;
        loop {
            action = match action {
                Action::Idle => return sent,
                Action::Listen { buffer } => {
                    self.buffer = Some(buffer);
                    return sent;
                }
                Action::Transmit { buffer, len } => {
                    sent.push(buffer[..len].to_vec());
                    self.server.message_transmitted(buffer, Ok(()))
                }
                Action::ReadPage { page_number, page } => {
                    let mut page = page;
                    let at = page_number * PAGE;
                    page.copy_from_slice(&self.flash[at..at + PAGE]);
                    self.server.read_complete(page)
                }
                Action::WritePage { page_number, page } => {
                    // The driver erases the whole block before writing a page
                    // that is not blank.
                    let at = page_number * PAGE;
                    if self.flash[at..at + PAGE].iter().any(|byte| *byte != 0xFF) {
                        let block = page_number / 16 * 16 * PAGE;
                        self.flash[block..block + 16 * PAGE].fill(0xFF);
                    }
                    self.flash[at..at + PAGE].copy_from_slice(&page);
                    self.writes.push(page_number);
                    self.server.write_complete(page)
                }
                Action::ErasePage { page_number } => {
                    self.erases.push(page_number);
                    self.server.erase_complete()
                }
                Action::Reset { then } => {
                    self.resets += 1;
                    match then {
                        Some(buffer) => Action::Listen { buffer },
                        None => return sent,
                    }
                }
            };
        }
    }

    /// A message of `len` bytes whose decoder reports `results` in turn.
    fn receive(&mut self, message: &[u8], results: Vec<Decoded<Vec<u8>>>) -> Vec<Vec<u8>> {
        let mut buffer = self.buffer.take().unwrap();
        buffer[..message.len()].copy_from_slice(message);
        let mut reception = self.server.message_received(buffer, message.len(), Ok(()));
        for result in results {
            match reception {
                Reception::Decode { .. } => reception = self.server.decoded(result),
                Reception::Act(_) => panic!("nothing left to decode"),
            }
        }
        match reception {
            Reception::Act(action) => self.settle(action),
            Reception::Decode { .. } => panic!("more to decode"),
        }
    }

    fn command(&mut self, command: Command<Vec<u8>>) -> Vec<Vec<u8>> {
        self.receive(&[0], vec![Decoded::Command(command)])
    }
}

fn escaped(bytes: &[u8]) -> Vec<u8> {
    let mut result = Vec::new();
    for byte in bytes {
        if *byte == 0xFC {
            result.push(0xFC);
        }
        result.push(*byte);
    }
    result
}

#[test]
fn ping_pongs() {
    assert_eq!(bench().command(Command::Ping), [[0xFC, 0x11]]);
}

#[test]
fn unknown_and_undecodable_are_answered() {
    let mut bench = bench();
    assert_eq!(bench.command(Command::Other), [[0xFC, 0x16]]);
    assert_eq!(bench.receive(&[0], vec![Decoded::BadArguments]), [[0xFC, 0x14]]);
    assert_eq!(bench.receive(&[0], vec![Decoded::Failed]), [[0xFC, 0x13]]);
}

#[test]
fn bytes_are_decoded_in_order_until_one_decides() {
    let mut bench = bench();
    let mut buffer = bench.buffer.take().unwrap();
    buffer[..4].copy_from_slice(&[10, 11, 12, 13]);
    match bench.server.message_received(buffer, 4, Ok(())) {
        Reception::Decode { decoder: Decoder::Fresh, byte } => assert_eq!(byte, 10),
        _ => panic!(),
    }
    match bench.server.decoded(Decoded::Nothing) {
        Reception::Decode { decoder: Decoder::Same, byte } => assert_eq!(byte, 11),
        _ => panic!(),
    }
    match bench.server.decoded(Decoded::Command(Command::Reset)) {
        Reception::Decode { decoder: Decoder::Reset, byte } => assert_eq!(byte, 12),
        _ => panic!(),
    }
    match bench.server.decoded(Decoded::Command(Command::Ping)) {
        Reception::Act(action) => assert_eq!(bench.settle(action), [[0xFC, 0x11]]),
        _ => panic!(),
    }
}

#[test]
fn undecided_messages_are_dropped() {
    let mut bench = bench();
    let sent = bench.receive(&[1, 2], vec![Decoded::Nothing, Decoded::Command(Command::Reset)]);
    assert!(sent.is_empty());
    assert!(bench.buffer.is_some());
    let buffer = bench.buffer.take().unwrap();
    match bench.server.message_received(buffer, 3, Err(ErrorCode::FAIL)) {
        Reception::Act(Action::Listen { .. }) => {}
        _ => panic!(),
    }
}

#[test]
fn exit_resets_and_listens_again() {
    let mut bench = bench();
    assert!(bench.command(Command::Exit).is_empty());
    assert_eq!(bench.resets, 1);
    assert!(bench.buffer.is_some());
}

#[test]
fn info_describes_the_bootloader() {
    let mut bench = bench();
    for i in 0..36 {
        bench.flash[FLAGS + i] = 0;
    }
    bench.flash[FLAGS + 14..FLAGS + 19].copy_from_slice(b"0.1.0");
    bench.flash[FLAGS + 32..FLAGS + 36].copy_from_slice(&[0x00, 0xAB, 0x01, 0x00]);
    let buffer = bench.buffer.as_mut().unwrap();
    for byte in buffer.iter_mut() {
        *byte = 0xEE;
    }
    let sent = bench.command(Command::Info);
    let json = br#"{"version":"0.1.0", "start_address":"0x0001ab00", "name":"Tock Bootloader"}"#;
    let mut expected = vec![0xFC, 0x25, json.len() as u8];
    expected.extend_from_slice(json);
    expected.resize(195, 0);
    assert_eq!(sent, [expected]);
}

#[test]
fn info_version_of_eight_bytes_needs_no_zero() {
    let mut bench = bench();
    bench.flash[FLAGS + 14..FLAGS + 22].copy_from_slice(b"12345678");
    bench.flash[FLAGS + 22] = b'9';
    let sent = bench.command(Command::Info);
    assert_eq!(&sent[0][15..23], b"12345678");
    assert_eq!(sent[0][23], b'"');
}

#[test]
fn range_is_sent_with_a_header_and_escaped() {
    let mut bench = bench();
    bench.flash[0x2_0000] = 0xFC;
    bench.flash[0x2_0001] = 0x01;
    bench.flash[0x2_0002] = 0xFC;
    let sent = bench.command(Command::ReadRange { address: 0x2_0000, length: 3 });
    assert_eq!(sent, [[0xFC, 0x20, 0xFC, 0xFC, 0x01, 0xFC, 0xFC]]);
}

#[test]
fn range_over_pages_and_messages() {
    for room in [4, 5, 64, 600] {
        let mut bench = bench_with(room);
        for i in 0..2000 {
            bench.flash[0x2_0100 + i] = if i % 5 == 0 { 0xFC } else { i as u8 };
        }
        let sent = bench.command(Command::ReadRange { address: 0x2_0100, length: 2000 });
        let mut expected = vec![0xFC, 0x20];
        expected.extend_from_slice(&escaped(&bench.flash[0x2_0100..0x2_0100 + 2000]));
        assert_eq!(sent.concat(), expected);
        assert!(sent.iter().all(|message| message.len() <= room));
        assert!(bench.buffer.is_some());
    }
}

#[test]
fn empty_range_is_a_header() {
    assert_eq!(
        bench().command(Command::ReadRange { address: 0x2_0000, length: 0 }),
        [[0xFC, 0x20]]
    );
}

#[test]
fn page_write_and_its_refusals() {
    let mut bench = bench();
    let short = Command::WritePage { address: 0x2_0000, data: vec![0; 100] };
    assert_eq!(bench.command(short), [[0xFC, 0x14]]);
    let low = Command::WritePage { address: PROTECTED - 1, data: vec![0; PAGE] };
    assert_eq!(bench.command(low), [[0xFC, 0x12]]);
    assert!(bench.writes.is_empty());
    let good = Command::WritePage { address: PROTECTED, data: vec![0x5A; PAGE] };
    assert_eq!(bench.command(good), [[0xFC, 0x15]]);
    assert_eq!(bench.writes, [PROTECTED as usize / PAGE]);
    assert_eq!(bench.flash[PROTECTED as usize..PROTECTED as usize + PAGE], [0x5A; PAGE]);
}

#[test]
fn page_written_is_read_back() {
    for buffer in [4, BUF_LEN] {
        let mut bench = bench_with(buffer);
        let data: Vec<u8> = (0..PAGE).map(|i| (i * 7) as u8).collect();
        let write = Command::WritePage { address: 0x2_0433, data: data.clone() };
        assert_eq!(bench.command(write), [[0xFC, 0x15]]);
        for (offset, length) in [(0, PAGE), (0, 1), (100, 300), (PAGE - 1, 1), (7, 0)] {
            let address = (0x2_0400 + offset) as u32;
            let read = Command::ReadRange { address, length: length as u16 };
            let mut expected = vec![0xFC, 0x20];
            expected.extend(escaped(&data[offset..offset + length]));
            assert_eq!(bench.command(read).concat(), expected);
        }
    }
}

#[test]
fn failed_reception_is_not_looked_at() {
    let mut bench = bench();
    let buffer = bench.buffer.take().unwrap();
    match bench.server.message_received(buffer, BUF_LEN + 1, Err(ErrorCode::FAIL)) {
        Reception::Act(Action::Listen { buffer }) => assert_eq!(buffer.len(), BUF_LEN),
        _ => panic!(),
    }
}

#[test]
fn page_erase_and_its_refusal() {
    let mut bench = bench();
    assert_eq!(bench.command(Command::ErasePage { address: 0 }), [[0xFC, 0x12]]);
    assert!(bench.erases.is_empty());
    assert_eq!(bench.command(Command::ErasePage { address: 0x2_0400 }), [[0xFC, 0x15]]);
    assert_eq!(bench.erases, [0x2_0400 / PAGE]);
}

#[test]
fn crc_is_of_the_range() {
    let mut bench = bench();
    bench.flash[0x2_01FC..0x2_0205].copy_from_slice(b"123456789");
    let sent = bench.command(Command::CrcIntFlash { address: 0x2_01FC, length: 9 });
    assert_eq!(sent, [[0xFC, 0x23, 0x26, 0x39, 0xF4, 0xCB]]);
    let sent = bench.command(Command::CrcIntFlash { address: 0x2_0000, length: 0 });
    assert_eq!(sent, [[0xFC, 0x23, 0, 0, 0, 0]]);
}

#[test]
fn attribute_set_then_got() {
    let mut bench = bench();
    let set = Command::SetAttr { index: 3, key: b"appaddr\0".to_vec(), value: b"0x7\xFC".to_vec() };
    assert_eq!(bench.command(set), [[0xFC, 0x15]]);
    let mut record = b"appaddr\0\x040x7\xFC".to_vec();
    record.resize(64, 0);
    let at = ATTRIBUTES + 3 * 64;
    assert_eq!(&bench.flash[at..at + 64], &record[..]);
    let mut expected = vec![0xFC, 0x22];
    expected.extend_from_slice(&escaped(&record));
    assert_eq!(bench.command(Command::GetAttr { index: 3 }), [expected]);
}

#[test]
fn attribute_value_is_cut_at_its_field() {
    let mut bench = bench();
    let set = Command::SetAttr { index: 0, key: vec![1; 8], value: vec![2; 60] };
    bench.command(set);
    assert_eq!(bench.flash[ATTRIBUTES + 8], 60);
    assert_eq!(bench.flash[ATTRIBUTES + 9..ATTRIBUTES + 64], [2; 55]);
}

#[test]
fn start_address_set_is_where_the_next_boot_goes() {
    let mut bench = bench();
    let sent = bench.command(Command::SetStartAddress { address: 0x0002_0000 });
    assert_eq!(sent, [[0xFC, 0x15]]);
    assert_eq!(&bench.flash[FLAGS + 32..FLAGS + 36], [0x00, 0x00, 0x02, 0x00]);
    let enterer = BootloaderEnterer::new(FLAGS as u32, PROTECTED);
    assert_eq!(enterer.check(false, &bench.flash), Entry::Jump(0x0002_0000));
}

#[test]
fn entry_decisions() {
    let mut flash = vec![0u8; FLASH];
    let enterer = BootloaderEnterer::new(FLAGS as u32, PROTECTED);
    // Never written.
    assert_eq!(enterer.check(false, &flash), Entry::Active);
    // Erased.
    flash[FLAGS + 32..FLAGS + 36].copy_from_slice(&[0xFF; 4]);
    assert_eq!(enterer.check(false, &flash), Entry::Active);
    // Inside the bootloader.
    flash[FLAGS + 32..FLAGS + 36].copy_from_slice(&0x0000_8000u32.to_le_bytes());
    assert_eq!(enterer.check(false, &flash), Entry::Active);
    // Past the end of flash.
    flash[FLAGS + 32..FLAGS + 36].copy_from_slice(&0x0020_0000u32.to_le_bytes());
    assert_eq!(enterer.check(false, &flash), Entry::Active);
    // A kernel.
    flash[FLAGS + 32..FLAGS + 36].copy_from_slice(&PROTECTED.to_le_bytes());
    assert_eq!(enterer.check(false, &flash), Entry::Jump(PROTECTED));
    assert_eq!(enterer.check(true, &flash), Entry::Active);
    // An erased one.
    flash[PROTECTED as usize..PROTECTED as usize + 4].copy_from_slice(&[0xFF; 4]);
    assert_eq!(enterer.check(false, &flash), Entry::Active);
}

#[test]
fn failed_transmission_is_the_end_of_it() {
    let mut bench = bench();
    let buffer = bench.buffer.take().unwrap();
    match bench.server.message_transmitted(buffer, Err(ErrorCode::FAIL)) {
        Action::Idle => {}
        _ => panic!(),
    }
}
