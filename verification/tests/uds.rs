//! The UDS server against a flash in memory.

use bootloader::actions::Action;
use bootloader::error::ErrorCode;
use bootloader::uds::server::UdsServer;

const PAGE: usize = 512;
const BLOCK: usize = 16 * PAGE;
const FLASH: usize = 0x20_0000;
const FLOOR: u32 = 0x1_0000;
const ATTRIBUTES: usize = 0xE200;
const FLAGS: usize = 0xE000;

/// A server, its flash, and what it has asked for.
struct Bench {
    server: UdsServer,
    flash: Vec<u8>,
    buffer: Option<Vec<u8>>,
    erased: Vec<usize>,
    writes: Vec<usize>,
    resets: usize,
    refuse_read: bool,
    refuse_write: bool,
    refuse_erase: bool,
    fail_write: bool,
    fail_erase: bool,
    refuse_transmit: bool,
}

fn bench_with(text_end: u32, stage: usize, buffer: usize) -> Bench {
    let mut server = UdsServer::new(
        vec![0; PAGE],
        vec![0; buffer],
        vec![0; stage],
        0x7_0000,
        FLOOR,
        FLASH as u32,
        ATTRIBUTES as u32,
        FLAGS as u32,
        text_end,
    );
    let buffer = match server.start() {
        Action::Listen { buffer } => Some(buffer),
        _ => None,
    };
    let mut flash = vec![0xFF; FLASH];
    flash[FLAGS + 34] = 0x01;
    flash[FLAGS + 32] = 0x00;
    flash[FLAGS + 33] = 0x00;
    flash[FLAGS + 35] = 0x00;
    Bench {
        server,
        flash,
        buffer,
        erased: Vec::new(),
        writes: Vec::new(),
        resets: 0,
        refuse_read: false,
        refuse_write: false,
        refuse_erase: false,
        fail_write: false,
        fail_erase: false,
        refuse_transmit: false,
    }
}

fn bench() -> Bench {
    bench_with(0xC000, BLOCK, 600)
}

impl Bench {
    /// The driver erases the whole block before writing a page that is not
    /// blank.
    fn write(&mut self, page_number: usize, page: &[u8]) {
        let at = page_number * PAGE;
        if self.flash[at..at + PAGE].iter().any(|b| *b != 0xFF) {
            let block = page_number / 16 * BLOCK;
            for i in block..block + BLOCK {
                self.flash[i] = 0xFF;
            }
        }
        self.flash[at..at + PAGE].copy_from_slice(page);
        self.writes.push(page_number);
    }

    /// Do everything asked for until the server listens again; the messages
    /// it sent.
    fn settle(&mut self, first: Action<Vec<u8>>) -> Vec<Vec<u8>> {
        let mut sent = Vec::new();
        let mut action = first;
        loop {
            action = match action {
                Action::Idle => return sent,
                Action::Listen { buffer } => {
                    self.buffer = Some(buffer);
                    return sent;
                }
                Action::Transmit { buffer, len } => {
                    if self.refuse_transmit {
                        self.refuse_transmit = false;
                        self.server.transmit_refused(buffer)
                    } else {
                        sent.push(buffer[..len].to_vec());
                        self.server.message_transmitted(buffer, Ok(()))
                    }
                }
                Action::ReadPage { page_number, page } => {
                    if self.refuse_read {
                        self.server.read_refused(page)
                    } else {
                        let mut page = page;
                        let at = page_number * PAGE;
                        page.copy_from_slice(&self.flash[at..at + PAGE]);
                        self.server.read_complete(page)
                    }
                }
                Action::WritePage { page_number, page } => {
                    if self.refuse_write {
                        self.server.write_refused(page)
                    } else if self.fail_write {
                        self.server.write_complete(page, Err(ErrorCode::FAIL))
                    } else {
                        self.write(page_number, &page);
                        self.server.write_complete(page, Ok(()))
                    }
                }
                Action::ErasePage { page_number } => {
                    if self.refuse_erase {
                        self.server.erase_refused()
                    } else if self.fail_erase {
                        self.server.erase_complete(Err(ErrorCode::FAIL))
                    } else {
                        self.erased.push(page_number);
                        let block = page_number / 16 * BLOCK;
                        for i in block..block + BLOCK {
                            self.flash[i] = 0xFF;
                        }
                        self.server.erase_complete(Ok(()))
                    }
                }
                Action::Reset { then } => {
                    assert!(then.is_none());
                    self.resets += 1;
                    return sent;
                }
            };
        }
    }

    fn ask(&mut self, request: &[u8]) -> Vec<Vec<u8>> {
        let mut buffer = self.buffer.take().unwrap();
        buffer[..request.len()].copy_from_slice(request);
        let action = self.server.message_received(buffer, request.len(), Ok(()));
        self.settle(action)
    }

    fn ask_one(&mut self, request: &[u8]) -> Vec<u8> {
        let mut sent = self.ask(request);
        assert_eq!(sent.len(), 1);
        sent.pop().unwrap()
    }

    fn unlock(&mut self) {
        assert_eq!(self.ask_one(&[0x10, 0x02]), [0x50, 0x02, 0x00, 0x32, 0x01, 0xF4]);
        let seed = self.ask_one(&[0x27, 0x01]);
        let key = be(&seed[2..6]) ^ 0x534F_434B;
        let mut request = vec![0x27, 0x02];
        request.extend_from_slice(&key.to_be_bytes());
        assert_eq!(self.ask_one(&request), [0x67, 0x02]);
    }

    fn open(&mut self, sid: u8, address: u32, size: u32) -> Vec<u8> {
        let mut request = vec![sid, 0x00, 0x44];
        request.extend_from_slice(&address.to_be_bytes());
        request.extend_from_slice(&size.to_be_bytes());
        self.ask_one(&request)
    }

    fn routine(&mut self, routine: u16, address: u32, size: u32) -> Vec<Vec<u8>> {
        let mut request = vec![0x31, 0x01];
        request.extend_from_slice(&routine.to_be_bytes());
        request.extend_from_slice(&address.to_be_bytes());
        request.extend_from_slice(&size.to_be_bytes());
        self.ask(&request)
    }

    fn block(&mut self, sequence: u8, data: &[u8]) -> Vec<u8> {
        let mut request = vec![0x36, sequence];
        request.extend_from_slice(data);
        self.ask_one(&request)
    }
}

fn be(bytes: &[u8]) -> u32 {
    u32::from_be_bytes([bytes[0], bytes[1], bytes[2], bytes[3]])
}

fn crc32(bytes: &[u8]) -> u32 {
    let mut crc = 0xFFFF_FFFFu32;
    for byte in bytes {
        crc ^= *byte as u32;
        for _ in 0..8 {
            crc = if crc & 1 == 1 { (crc >> 1) ^ 0xEDB8_8320 } else { crc >> 1 };
        }
    }
    crc ^ 0xFFFF_FFFF
}

fn pattern(len: usize) -> Vec<u8> {
    (0..len).map(|i| (i * 7 + i / 256) as u8).collect()
}

#[test]
fn unknown_service_is_refused() {
    assert_eq!(bench().ask_one(&[0x99]), [0x7F, 0x99, 0x11]);
}

#[test]
fn noise_is_ignored() {
    let mut bench = bench();
    let buffer = bench.buffer.take().unwrap();
    let action = bench.server.message_received(buffer, 0, Ok(()));
    assert!(bench.settle(action).is_empty());
    let mut buffer = bench.buffer.take().unwrap();
    buffer[0] = 0x11;
    buffer[1] = 0x01;
    let action = bench.server.message_received(buffer, 2, Err(ErrorCode::FAIL));
    assert!(bench.settle(action).is_empty());
    assert_eq!(bench.resets, 0);
}

#[test]
fn session_control_answers() {
    let mut bench = bench();
    assert_eq!(bench.ask_one(&[0x10]), [0x7F, 0x10, 0x13]);
    assert_eq!(bench.ask_one(&[0x10, 0x03]), [0x7F, 0x10, 0x12]);
    assert_eq!(bench.ask_one(&[0x10, 0x82]), [0x50, 0x02, 0x00, 0x32, 0x01, 0xF4]);
    assert_eq!(bench.ask_one(&[0x22, 0xF1, 0x86]), [0x62, 0xF1, 0x86, 0x02]);
    assert_eq!(bench.ask_one(&[0x10, 0x01]), [0x50, 0x01, 0x00, 0x32, 0x01, 0xF4]);
    assert_eq!(bench.ask_one(&[0x22, 0xF1, 0x86]), [0x62, 0xF1, 0x86, 0x01]);
}

#[test]
fn ecu_reset_answers_first() {
    let mut bench = bench();
    assert_eq!(bench.ask_one(&[0x11]), [0x7F, 0x11, 0x13]);
    assert_eq!(bench.ask_one(&[0x11, 0x02]), [0x7F, 0x11, 0x12]);
    assert_eq!(bench.resets, 0);
    assert_eq!(bench.ask_one(&[0x11, 0x81]), [0x51, 0x01]);
    assert_eq!(bench.resets, 1);
}

#[test]
fn tester_present_and_its_suppress_bit() {
    let mut bench = bench();
    assert_eq!(bench.ask_one(&[0x3E]), [0x7F, 0x3E, 0x13]);
    assert_eq!(bench.ask_one(&[0x3E, 0x00]), [0x7E, 0x00]);
    assert!(bench.ask(&[0x3E, 0x80]).is_empty());
    assert!(bench.buffer.is_some());
}

#[test]
fn fixed_identifiers_read() {
    let mut bench = bench();
    assert_eq!(bench.ask_one(&[0x22, 0xF1]), [0x7F, 0x22, 0x13]);
    let mut name = vec![0x62, 0xF1, 0x80];
    name.extend_from_slice(b"TOCKBL 0.1.0");
    assert_eq!(bench.ask_one(&[0x22, 0xF1, 0x80]), name);
    assert_eq!(
        bench.ask_one(&[0x22, 0xF2, 0x00]),
        [0x62, 0xF2, 0x00, 0x00, 0x07, 0x00, 0x00]
    );
    assert_eq!(bench.ask_one(&[0x22, 0x12, 0x34]), [0x7F, 0x22, 0x31]);
}

#[test]
fn start_address_is_read_most_significant_byte_first() {
    assert_eq!(
        bench().ask_one(&[0x22, 0xF2, 0x01]),
        [0x62, 0xF2, 0x01, 0x00, 0x01, 0x00, 0x00]
    );
}

#[test]
fn attributes_are_read_without_unlocking() {
    let mut bench = bench();
    let record = pattern(64);
    bench.flash[ATTRIBUTES + 3 * 64..ATTRIBUTES + 4 * 64].copy_from_slice(&record);
    let answer = bench.ask_one(&[0x22, 0xF2, 0xA3]);
    assert_eq!(&answer[..3], [0x62, 0xF2, 0xA3]);
    assert_eq!(&answer[3..], &record[..]);
    assert_eq!(bench.ask_one(&[0x22, 0xF2, 0xB0]), [0x7F, 0x22, 0x31]);
}

#[test]
fn identifier_read_refused_by_flash() {
    let mut bench = bench();
    bench.refuse_read = true;
    assert_eq!(bench.ask_one(&[0x22, 0xF2, 0xA0]), [0x7F, 0x22, 0x72]);
    bench.refuse_read = false;
    assert_eq!(bench.ask_one(&[0x22, 0xF2, 0xA0]).len(), 67);
}

#[test]
fn identifier_read_needs_room_for_the_answer() {
    assert_eq!(bench_with(0xC000, BLOCK, 66).ask_one(&[0x22, 0xF2, 0xA0]), [0x7F, 0x22, 0x72]);
}

#[test]
fn seed_and_key() {
    let mut bench = bench();
    assert_eq!(bench.ask_one(&[0x27]), [0x7F, 0x27, 0x13]);
    assert_eq!(bench.ask_one(&[0x27, 0x01]), [0x7F, 0x27, 0x22]);
    bench.ask_one(&[0x10, 0x02]);
    let seed = 0x0020_0000u32.rotate_left(7) ^ 0xA5A5_1234;
    let mut expected = vec![0x67, 0x01];
    expected.extend_from_slice(&seed.to_be_bytes());
    // A key before a seed is out of sequence.
    assert_eq!(bench.ask_one(&[0x27, 0x02, 0, 0, 0, 0]), [0x7F, 0x27, 0x24]);
    assert_eq!(bench.ask_one(&[0x27, 0x01]), expected);
    assert_eq!(bench.ask_one(&[0x27, 0x02, 0, 0]), [0x7F, 0x27, 0x13]);
    assert_eq!(bench.ask_one(&[0x27, 0x02, 0, 0, 0, 0]), [0x7F, 0x27, 0x35]);
    // The wrong key cost the seed.
    assert_eq!(bench.ask_one(&[0x27, 0x02, 0, 0, 0, 0]), [0x7F, 0x27, 0x24]);
    assert_eq!(bench.ask_one(&[0x27, 0x05]), [0x7F, 0x27, 0x12]);
    bench.unlock();
}

#[test]
fn locked_services_are_refused() {
    let mut bench = bench();
    bench.ask_one(&[0x10, 0x02]);
    assert_eq!(bench.ask_one(&[0x2E, 0xF2, 0xA0, 1]), [0x7F, 0x2E, 0x33]);
    assert_eq!(bench.routine(0xFF00, FLOOR, 512), [[0x7F, 0x31, 0x33]]);
    assert_eq!(bench.open(0x34, FLOOR, 512), [0x7F, 0x34, 0x33]);
    assert_eq!(bench.open(0x35, FLOOR, 512), [0x7F, 0x35, 0x33]);
    assert_eq!(bench.ask_one(&[0x34, 0x00, 0x44]), [0x7F, 0x34, 0x13]);
    assert_eq!(bench.ask_one(&[0x35]), [0x7F, 0x35, 0x13]);
    assert_eq!(bench.ask_one(&[0x31, 0x01]), [0x7F, 0x31, 0x13]);
    assert_eq!(bench.ask_one(&[0x2E, 0xF2]), [0x7F, 0x2E, 0x13]);
    assert!(bench.writes.is_empty() && bench.erased.is_empty());
}

#[test]
fn leaving_the_session_locks_and_closes() {
    let mut bench = bench();
    bench.unlock();
    assert_eq!(bench.open(0x34, FLOOR, 512), [0x74, 0x20, 0x02, 0x02]);
    bench.ask_one(&[0x10, 0x01]);
    bench.ask_one(&[0x10, 0x02]);
    assert_eq!(bench.open(0x34, FLOOR, 512), [0x7F, 0x34, 0x33]);
    assert_eq!(bench.block(1, &[1]), [0x7F, 0x36, 0x24]);
}

#[test]
fn transfers_are_confined() {
    let mut bench = bench();
    bench.unlock();
    assert_eq!(bench.open(0x34, FLOOR - 512, 512), [0x7F, 0x34, 0x31]);
    assert_eq!(bench.open(0x34, FLOOR, 0), [0x7F, 0x34, 0x31]);
    assert_eq!(bench.open(0x34, FLASH as u32 - 512, 513), [0x7F, 0x34, 0x31]);
    assert_eq!(bench.open(0x34, 0xFFFF_FE00, 0x400), [0x7F, 0x34, 0x31]);
    assert_eq!(bench.open(0x34, FLOOR + 1, 512), [0x7F, 0x34, 0x31]);
    let mut compressed = vec![0x34, 0x10, 0x44];
    compressed.extend_from_slice(&[0, 1, 0, 0, 0, 0, 2, 0]);
    assert_eq!(bench.ask_one(&compressed), [0x7F, 0x34, 0x31]);
    compressed[1] = 0x00;
    compressed[2] = 0x33;
    assert_eq!(bench.ask_one(&compressed), [0x7F, 0x34, 0x31]);
    assert_eq!(bench.open(0x34, FLASH as u32 - 512, 512), [0x74, 0x20, 0x02, 0x02]);
}

#[test]
fn one_transfer_at_a_time() {
    let mut bench = bench();
    bench.unlock();
    assert_eq!(bench.open(0x34, FLOOR, 512), [0x74, 0x20, 0x02, 0x02]);
    assert_eq!(bench.open(0x34, FLOOR, 512), [0x7F, 0x34, 0x70]);
    assert_eq!(bench.open(0x35, FLOOR, 512), [0x7F, 0x35, 0x70]);
    assert_eq!(bench.ask_one(&[0x37]), [0x7F, 0x37, 0x71]);
    assert_eq!(bench.open(0x35, FLOOR, 512), [0x75, 0x20, 0x02, 0x02]);
    assert_eq!(bench.open(0x34, FLOOR, 512), [0x7F, 0x34, 0x70]);
    assert_eq!(bench.ask_one(&[0x37]), [0x77]);
    assert_eq!(bench.ask_one(&[0x37]), [0x7F, 0x37, 0x24]);
}

#[test]
fn download_then_upload_gives_the_image_back() {
    let mut bench = bench();
    bench.unlock();
    let image = pattern(512 * 3 + 100);
    assert_eq!(bench.open(0x34, 0x2_0000, image.len() as u32), [0x74, 0x20, 0x02, 0x02]);
    for (i, chunk) in image.chunks(512).enumerate() {
        assert_eq!(bench.block(i as u8 + 1, chunk), [0x76, i as u8 + 1]);
    }
    assert_eq!(bench.ask_one(&[0x37]), [0x77]);
    assert_eq!(&bench.flash[0x2_0000..0x2_0000 + image.len()], &image[..]);
    // The rest of the last page is erased.
    assert!(bench.flash[0x2_0000 + image.len()..0x2_0800].iter().all(|b| *b == 0xFF));

    assert_eq!(bench.open(0x35, 0x2_0000, image.len() as u32), [0x75, 0x20, 0x02, 0x02]);
    let mut back = Vec::new();
    let mut sequence = 1;
    while back.len() < image.len() {
        let answer = bench.block(sequence, &[]);
        assert_eq!(&answer[..2], [0x76, sequence]);
        back.extend_from_slice(&answer[2..]);
        sequence += 1;
    }
    assert_eq!(back, image);
    // Everything asked for has been handed over.
    assert_eq!(bench.block(sequence, &[]), [0x7F, 0x36, 0x24]);
    assert_eq!(bench.ask_one(&[0x37]), [0x77]);
}

#[test]
fn upload_starts_anywhere() {
    let mut bench = bench();
    let data = pattern(2048);
    bench.flash[0x3_0000..0x3_0800].copy_from_slice(&data);
    bench.unlock();
    bench.open(0x35, 0x3_0000 + 500, 600);
    let first = bench.block(1, &[]);
    assert_eq!(&first[2..], &data[500..512]);
    let second = bench.block(2, &[]);
    assert_eq!(&second[2..], &data[512..1024]);
    let third = bench.block(3, &[]);
    assert_eq!(&third[2..], &data[1024..1100]);
}

#[test]
fn repeated_upload_block_is_answered_the_same() {
    let mut bench = bench();
    let data = pattern(1024);
    bench.flash[0x3_0000..0x3_0400].copy_from_slice(&data);
    bench.unlock();
    bench.open(0x35, 0x3_0000, 1024);
    // Nothing to repeat yet.
    assert_eq!(bench.block(0, &[]), [0x7F, 0x36, 0x73]);
    let first = bench.block(1, &[]);
    assert_eq!(&first[..2], [0x76, 1]);
    assert_eq!(&first[2..], &data[..512]);
    assert_eq!(bench.block(1, &[]), first);
    assert_eq!(bench.block(1, &[]), first);
    let second = bench.block(2, &[]);
    assert_eq!(&second[..2], [0x76, 2]);
    assert_eq!(&second[2..], &data[512..]);
    // Also once everything has been handed over.
    assert_eq!(bench.block(2, &[]), second);
}

#[test]
fn block_last_handed_out_survives_a_failed_read() {
    let mut bench = bench();
    let data = pattern(1024);
    bench.flash[0x3_0000..0x3_0400].copy_from_slice(&data);
    bench.unlock();
    bench.open(0x35, 0x3_0000, 1024);
    let first = bench.block(1, &[]);
    bench.refuse_read = true;
    assert_eq!(bench.block(2, &[]), [0x7F, 0x36, 0x72]);
    bench.refuse_read = false;
    assert_eq!(bench.block(1, &[]), first);
    let second = bench.block(2, &[]);
    assert_eq!(&second[..2], [0x76, 2]);
    assert_eq!(&second[2..], &data[512..]);
}

#[test]
fn repeated_upload_block_across_the_counter_wrap() {
    let mut bench = bench();
    bench.unlock();
    bench.open(0x35, 0x10_0000, 512 * 258);
    for sequence in 1..=255 {
        bench.block(sequence, &[]);
    }
    let wrapped = bench.block(0, &[]);
    assert_eq!(&wrapped[..2], [0x76, 0]);
    assert_eq!(bench.block(0, &[]), wrapped);
    assert_eq!(&bench.block(1, &[])[..2], [0x76, 1]);
}

#[test]
fn repeated_download_block_is_acknowledged_and_not_written() {
    let mut bench = bench();
    bench.unlock();
    bench.open(0x34, FLOOR, 1024);
    assert_eq!(bench.block(1, &[0xAA; 512]), [0x76, 1]);
    assert_eq!(bench.writes.len(), 1);
    assert_eq!(bench.block(1, &[0xBB; 512]), [0x76, 1]);
    assert_eq!(bench.writes.len(), 1);
    assert_eq!(bench.flash[FLOOR as usize], 0xAA);
    assert_eq!(bench.block(3, &[0xBB; 512]), [0x7F, 0x36, 0x73]);
}

#[test]
fn download_block_lengths() {
    let mut bench = bench();
    bench.unlock();
    bench.open(0x34, FLOOR, 512);
    assert_eq!(bench.ask_one(&[0x36]), [0x7F, 0x36, 0x13]);
    assert_eq!(bench.block(1, &[]), [0x7F, 0x36, 0x13]);
    assert_eq!(bench.block(1, &[0; 513]), [0x7F, 0x36, 0x13]);
    assert_eq!(bench.block(1, &[0; 512]), [0x76, 1]);
    assert_eq!(bench.block(2, &[0; 1]), [0x7F, 0x36, 0x31]);
}

#[test]
fn refused_write_leaves_the_block_expected() {
    let mut bench = bench();
    bench.unlock();
    bench.open(0x34, FLOOR, 512);
    bench.refuse_write = true;
    assert_eq!(bench.block(1, &[7; 512]), [0x7F, 0x36, 0x72]);
    bench.refuse_write = false;
    assert_eq!(bench.block(1, &[7; 512]), [0x76, 1]);
    assert_eq!(bench.ask_one(&[0x37]), [0x77]);
    assert_eq!(bench.flash[FLOOR as usize + 511], 7);
}

#[test]
fn failed_write_is_reported() {
    let mut bench = bench();
    bench.unlock();
    bench.open(0x34, FLOOR, 512);
    bench.fail_write = true;
    assert_eq!(bench.block(1, &[7; 512]), [0x7F, 0x36, 0x72]);
}

#[test]
fn refused_upload_read_is_reported() {
    let mut bench = bench();
    bench.unlock();
    bench.open(0x35, FLOOR, 512);
    bench.refuse_read = true;
    assert_eq!(bench.block(1, &[]), [0x7F, 0x36, 0x72]);
    bench.refuse_read = false;
    assert_eq!(bench.block(1, &[]).len(), 514);
}

#[test]
fn upload_block_too_long_for_the_buffer() {
    let mut bench = bench_with(0xC000, BLOCK, 100);
    bench.unlock();
    bench.open(0x35, FLOOR, 512);
    assert_eq!(bench.block(1, &[]), [0x7F, 0x36, 0x72]);
}

#[test]
fn erase_covers_the_range_and_is_announced() {
    let mut bench = bench();
    bench.unlock();
    for i in 0x4_0000..0x4_8000 {
        bench.flash[i] = 0x55;
    }
    let sent = bench.routine(0xFF00, 0x4_2000 + 10, 512);
    assert_eq!(sent, [vec![0x7F, 0x31, 0x78], vec![0x71, 0x01, 0xFF, 0x00]]);
    assert_eq!(bench.erased, [0x4_2000 / 512, 0x4_2000 / 512 + 1]);
    assert!(bench.flash[0x4_2000..0x4_4000].iter().all(|b| *b == 0xFF));
    assert!(bench.flash[0x4_0000..0x4_2000].iter().all(|b| *b == 0x55));
    assert!(bench.flash[0x4_4000..0x4_8000].iter().all(|b| *b == 0x55));
}

#[test]
fn erase_failures_are_reported() {
    let mut bench = bench();
    bench.unlock();
    bench.refuse_erase = true;
    assert_eq!(bench.routine(0xFF00, FLOOR, 512)[1], [0x7F, 0x31, 0x72]);
    bench.refuse_erase = false;
    bench.fail_erase = true;
    assert_eq!(bench.routine(0xFF00, FLOOR, 512)[1], [0x7F, 0x31, 0x72]);
}

#[test]
fn check_memory_answers_the_crc() {
    let mut bench = bench();
    bench.unlock();
    let data = pattern(3000);
    bench.flash[0x5_0123..0x5_0123 + 3000].copy_from_slice(&data);
    let sent = bench.routine(0x0202, 0x5_0123, 3000);
    assert_eq!(sent[0], [0x7F, 0x31, 0x78]);
    assert_eq!(&sent[1][..4], [0x71, 0x01, 0x02, 0x02]);
    assert_eq!(be(&sent[1][4..]), crc32(&data));
    bench.flash[0x5_0000..0x5_0009].copy_from_slice(b"123456789");
    assert_eq!(be(&bench.routine(0x0202, 0x5_0000, 9)[1][4..]), 0xCBF4_3926);
}

#[test]
fn check_memory_refused_by_flash() {
    let mut bench = bench();
    bench.unlock();
    bench.refuse_read = true;
    assert_eq!(bench.routine(0x0202, FLOOR, 512)[1], [0x7F, 0x31, 0x72]);
}

#[test]
fn routine_control_errors() {
    let mut bench = bench();
    bench.unlock();
    assert_eq!(bench.ask_one(&[0x31, 0x02, 0xFF, 0x00]), [0x7F, 0x31, 0x12]);
    assert_eq!(bench.ask_one(&[0x31, 0x01, 0x12, 0x34]), [0x7F, 0x31, 0x31]);
    assert_eq!(bench.ask_one(&[0x31, 0x01, 0xFF, 0x00]), [0x7F, 0x31, 0x13]);
    assert_eq!(bench.ask_one(&[0x31, 0x01, 0x02, 0x02]), [0x7F, 0x31, 0x13]);
    assert_eq!(bench.routine(0xFF00, 0, 512)[0], [0x7F, 0x31, 0x31]);
    assert_eq!(bench.routine(0x0202, FLASH as u32 - 1, 2)[0], [0x7F, 0x31, 0x31]);
}

#[test]
fn attribute_write_changes_only_its_record() {
    let mut bench = bench();
    bench.unlock();
    for i in 0..BLOCK {
        bench.flash[FLAGS + i] = (i % 251) as u8;
    }
    let before = bench.flash.clone();
    let mut request = vec![0x2E, 0xF2, 0xA5];
    request.extend_from_slice(b"hello");
    let sent = bench.ask(&request);
    assert_eq!(sent, [vec![0x7F, 0x2E, 0x78], vec![0x6E, 0xF2, 0xA5]]);
    let mut expected = before;
    let at = ATTRIBUTES + 5 * 64;
    for i in 0..64 {
        expected[at + i] = 0;
    }
    expected[at..at + 5].copy_from_slice(b"hello");
    assert_eq!(bench.flash, expected);
    // Ascending, the whole block.
    let first = FLAGS / PAGE;
    assert_eq!(bench.writes, (first..first + 16).collect::<Vec<_>>());
    // And it reads back.
    let answer = bench.ask_one(&[0x22, 0xF2, 0xA5]);
    assert_eq!(&answer[3..8], b"hello");
    assert!(answer[8..].iter().all(|b| *b == 0));
}

#[test]
fn start_address_write_reads_back() {
    let mut bench = bench();
    bench.unlock();
    let sent = bench.ask(&[0x2E, 0xF2, 0x01, 0x00, 0x04, 0x12, 0x00]);
    assert_eq!(sent[1], [0x6E, 0xF2, 0x01]);
    assert_eq!(&bench.flash[FLAGS + 32..FLAGS + 36], [0x00, 0x12, 0x04, 0x00]);
    assert_eq!(
        bench.ask_one(&[0x22, 0xF2, 0x01]),
        [0x62, 0xF2, 0x01, 0x00, 0x04, 0x12, 0x00]
    );
}

#[test]
fn identifier_write_errors() {
    let mut bench = bench();
    bench.unlock();
    assert_eq!(bench.ask_one(&[0x2E, 0xF2, 0x01, 0, 1, 0]), [0x7F, 0x2E, 0x13]);
    assert_eq!(bench.ask_one(&[0x2E, 0xF2, 0x01, 0, 0, 0xFF, 0xFF]), [0x7F, 0x2E, 0x31]);
    assert_eq!(bench.ask_one(&[0x2E, 0xF2, 0x01, 0, 0x20, 0, 0]), [0x7F, 0x2E, 0x31]);
    assert_eq!(bench.ask_one(&[0x2E, 0xF2, 0x00, 0]), [0x7F, 0x2E, 0x22]);
    assert_eq!(bench.ask_one(&[0x2E, 0xF1, 0x80, 0]), [0x7F, 0x2E, 0x22]);
    assert_eq!(bench.ask_one(&[0x2E, 0xF1, 0x86, 0]), [0x7F, 0x2E, 0x22]);
    assert_eq!(bench.ask_one(&[0x2E, 0x12, 0x34, 0]), [0x7F, 0x2E, 0x31]);
    let mut long = vec![0x2E, 0xF2, 0xA0];
    long.extend_from_slice(&[0; 65]);
    assert_eq!(bench.ask_one(&long), [0x7F, 0x2E, 0x13]);
}

#[test]
fn own_code_is_never_rewritten() {
    let mut bench = bench_with(0xE001, BLOCK, 600);
    bench.unlock();
    assert_eq!(bench.ask_one(&[0x2E, 0xF2, 0xA0, 1]), [0x7F, 0x2E, 0x22]);
    assert!(bench.writes.is_empty());
}

#[test]
fn small_stage_is_unusable() {
    let mut bench = bench_with(0xC000, BLOCK - 1, 600);
    bench.unlock();
    assert_eq!(bench.ask_one(&[0x2E, 0xF2, 0xA0, 1]), [0x7F, 0x2E, 0x72]);
}

#[test]
fn rewrite_failures_are_reported() {
    let mut bench = bench();
    bench.unlock();
    bench.refuse_read = true;
    assert_eq!(bench.ask(&[0x2E, 0xF2, 0xA0, 1])[1], [0x7F, 0x2E, 0x72]);
    bench.refuse_read = false;
    bench.refuse_write = true;
    assert_eq!(bench.ask(&[0x2E, 0xF2, 0xA0, 1])[1], [0x7F, 0x2E, 0x72]);
    bench.refuse_write = false;
    bench.fail_write = true;
    assert_eq!(bench.ask(&[0x2E, 0xF2, 0xA0, 1])[1], [0x7F, 0x2E, 0x72]);
    bench.fail_write = false;
    assert_eq!(bench.ask(&[0x2E, 0xF2, 0xA0, 1])[1], [0x6E, 0xF2, 0xA0]);
}

#[test]
fn unsendable_answer_goes_back_to_listening() {
    let mut bench = bench();
    bench.refuse_transmit = true;
    assert!(bench.ask(&[0x3E, 0x00]).is_empty());
    assert_eq!(bench.ask_one(&[0x3E, 0x00]), [0x7E, 0x00]);
}

#[test]
fn sequence_numbers_wrap() {
    let mut bench = bench();
    bench.unlock();
    bench.open(0x34, 0x8_0000, 512 * 300);
    for i in 0..300u32 {
        let sequence = (i + 1) as u8;
        assert_eq!(bench.block(sequence, &[i as u8; 512]), [0x76, sequence]);
    }
    assert_eq!(bench.ask_one(&[0x37]), [0x77]);
    assert_eq!(bench.flash[0x8_0000 + 299 * 512], 299u32 as u8);
}

#[test]
fn failed_reception_of_any_length_is_dropped() {
    let mut bench = bench();
    let buffer = bench.buffer.take().unwrap();
    match bench.server.message_received(buffer, 601, Err(ErrorCode::FAIL)) {
        Action::Listen { buffer } => assert_eq!(buffer.len(), 600),
        _ => panic!(),
    }
}
