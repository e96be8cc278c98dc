# A verified Tock bootloader

The logic of a bootloader for the SAMV71 Xplained Ultra, written in Rust and
proved with Verus. It speaks the tockloader protocol over a UART and UDS
(ISO 14229-1) over CAN, checks the kernel before starting it, and rolls back to
a backup when the kernel cannot be trusted.

## Layout

- `src/` is the library. Nothing in it touches hardware: each part takes an
  event and returns what is to be done about it, and its contract says what
  that is. The servers, the ISO-TP link, the slot copier and the entry decision
  come with laws about whole exchanges too.
  - `uds/` and `bootloader/` are the two protocol servers;
  - `isotp/` segments messages for CAN, `can_transport`, `uart_transport` and
    `dual_transport` are the links;
  - `flash_direct` and `flash_router` share the flash between the servers;
  - `kernel_integrity`, `kernel_slot`, `gpbr_entry` and `board` decide what to
    boot;
  - `flash` says how the flash behaves, for the laws that speak of what is in
    it;
  - `bytes`, `crc`, `paging`, `actions` and `error` are what they share.
- `app/` brings the board up and carries out what the library asks for.
- `tests/` runs the library against a flash and a bus in memory.

## What the proofs rest on

- SHA-256 is trusted: the `sha2` crate computes it, and `kernel_integrity` names
  the result.
- What ends up in flash, a kernel that is rolled back among it, is proved of the
  flash that `flash` describes: a write to a page that is not blank erases its
  block first, and a write or an erase is done whole or not at all.
- `app/` is not proved. It has to perform what the library asks for and to meet
  the conditions that the library's functions state.
