use rv32_emu::cli::{
    bytecode_from_hex_text, file_type_from_extension, hex_parser, verbosity_index, FileType,
    HexError, HexParseError,
};
use rv32_emu::stdio::{LockChange, StdStreams, StdioRead, StdioWrite, STDIO_BASE};
use rv32_emu::{create_boxed_array, create_boxed_slice, Fault, Stdio};

#[test]
fn hex_parser_reads_entry_points() {
    assert_eq!(hex_parser("0x1000_0000"), Ok(0x1000_0000));
    assert_eq!(hex_parser("1000_0000"), Ok(0x1000_0000));
    assert_eq!(hex_parser("DEADbeef"), Ok(0xDEAD_BEEF));
    assert_eq!(hex_parser("0x0x10"), Ok(0x10));
    assert_eq!(hex_parser("+1f"), Ok(0x1F));
    assert_eq!(hex_parser("0xFFFF_FFFF"), Ok(u32::MAX));
}

#[test]
fn hex_parser_refusals() {
    assert_eq!(hex_parser(""), Err(HexParseError::Empty));
    assert_eq!(hex_parser("0x"), Err(HexParseError::Empty));
    assert_eq!(hex_parser("__"), Err(HexParseError::Empty));
    assert_eq!(hex_parser("+"), Err(HexParseError::InvalidDigit));
    assert_eq!(hex_parser("12g"), Err(HexParseError::InvalidDigit));
    assert_eq!(hex_parser("-1"), Err(HexParseError::InvalidDigit));
    assert_eq!(hex_parser("1_0000_0000"), Err(HexParseError::PosOverflow));
    // Overflow is found before the character that is not a digit.
    assert_eq!(hex_parser("FFFFFFFF0z"), Err(HexParseError::PosOverflow));
    assert_eq!(hex_parser("FFFFFFFFz"), Err(HexParseError::InvalidDigit));
    assert_eq!(HexParseError::Empty.message(), "cannot parse integer from empty string");
    assert_eq!(HexParseError::InvalidDigit.message(), "invalid digit found in string");
    assert_eq!(HexParseError::PosOverflow.message(), "number too large to fit in target type");
}

#[test]
fn verbosity_moves_from_the_default() {
    assert_eq!(verbosity_index(0, 0), None);
    assert_eq!(verbosity_index(1, 0), Some(3));
    assert_eq!(verbosity_index(3, 0), Some(5));
    assert_eq!(verbosity_index(200, 0), Some(5));
    assert_eq!(verbosity_index(0, 1), Some(1));
    assert_eq!(verbosity_index(0, 2), Some(0));
    assert_eq!(verbosity_index(0, 255), Some(0));
}

#[test]
fn file_types_by_extension() {
    assert_eq!(file_type_from_extension("elf"), Some(FileType::Elf));
    assert_eq!(file_type_from_extension("hex"), Some(FileType::Hex));
    assert_eq!(file_type_from_extension("bin"), Some(FileType::Bin));
    assert_eq!(file_type_from_extension("ELF"), None);
    assert_eq!(file_type_from_extension("txt"), None);
    assert_eq!(file_type_from_extension(""), None);
}

#[test]
fn hex_text_becomes_little_endian_words() {
    assert_eq!(
        bytecode_from_hex_text("0x20000537 0x0ff52583"),
        Ok(vec![0x37, 0x05, 0x00, 0x20, 0x83, 0x25, 0xF5, 0x0F])
    );
    // Anything that is not a digit is dropped, line breaks too.
    assert_eq!(
        bytecode_from_hex_text("0x00100293\n0x00100073\n"),
        Ok(vec![0x93, 0x02, 0x10, 0x00, 0x73, 0x00, 0x10, 0x00])
    );
    // A short last group is reversed too.
    assert_eq!(bytecode_from_hex_text("0x0A0B0C"), Ok(vec![0x0C, 0x0B, 0x0A]));
    assert_eq!(bytecode_from_hex_text(""), Ok(vec![]));
    assert_eq!(bytecode_from_hex_text("0x123"), Err(HexError::OddLength));
    assert_eq!(bytecode_from_hex_text("zz"), Ok(vec![]));
}

/// Streams that are never used.
#[derive(Debug, PartialEq)]
struct Unused;

impl StdStreams for Unused {
    fn open() -> Self {
        Unused
    }
    fn read_input(&mut self) -> Option<u8> {
        None
    }
    fn write_output(&mut self, _byte: u8) -> bool {
        false
    }
    fn lock_input(&mut self) {}
    fn unlock_input(&mut self) {}
    fn lock_output(&mut self) {}
    fn unlock_output(&mut self) {}
    fn flush_output(&mut self) -> bool {
        false
    }
}

#[test]
fn stdio_register_decisions() {
    let mut dev = Stdio::<Unused>::new();
    assert_eq!(dev.first(), STDIO_BASE);
    assert_eq!(dev.last(), STDIO_BASE + 2);
    assert_eq!(dev.read_register(STDIO_BASE), StdioRead::Input);
    assert_eq!(dev.read_register(STDIO_BASE + 1), StdioRead::Refused(Fault::WriteOnlyRegister));
    assert_eq!(dev.read_register(STDIO_BASE + 2), StdioRead::Value(0));
    assert_eq!(dev.read_register(STDIO_BASE + 3), StdioRead::Refused(Fault::InvalidAddress(STDIO_BASE + 3)));
    assert_eq!(dev.read_register(0x10), StdioRead::Refused(Fault::InvalidAddress(0x10)));

    assert_eq!(dev.write_register(STDIO_BASE, 1), StdioWrite::Refused(Fault::ReadOnlyRegister));
    assert_eq!(dev.write_register(STDIO_BASE + 1, b'A'), StdioWrite::Output(b'A'));
    assert_eq!(
        dev.write_register(STDIO_BASE + 2, 0b010),
        StdioWrite::Flags { input: LockChange::Keep, output: LockChange::Acquire, flush: false }
    );
    assert!(dev.output_locked);
    assert_eq!(dev.read_register(STDIO_BASE + 2), StdioRead::Value(2));
    // Holding the output lock again takes nothing; bit 0 takes the input lock.
    assert_eq!(
        dev.write_register(STDIO_BASE + 2, 0b011),
        StdioWrite::Flags { input: LockChange::Acquire, output: LockChange::Keep, flush: false }
    );
    assert_eq!(dev.read_register(STDIO_BASE + 2), StdioRead::Value(3));
    // Bits above bit 2 are ignored.
    assert_eq!(
        dev.write_register(STDIO_BASE + 2, 0b1111_1100),
        StdioWrite::Flags { input: LockChange::Release, output: LockChange::Release, flush: true }
    );
    assert!(!dev.output_locked);
    assert!(!dev.input_locked);
    assert_eq!(
        dev.write_register(STDIO_BASE + 7, 0),
        StdioWrite::Refused(Fault::InvalidAddress(STDIO_BASE + 7))
    );
    let fresh = Stdio::<Unused>::default();
    assert!(!fresh.input_locked && !fresh.output_locked);
}

#[test]
fn boxed_memories_are_zeroed() {
    let s = create_boxed_slice(100);
    assert_eq!(s.len(), 100);
    assert!(s.iter().all(|&b| b == 0));
    let a = create_boxed_array::<64>();
    assert_eq!(a.len(), 64);
    assert!(a.iter().all(|&b| b == 0));
    assert_eq!(create_boxed_slice(0).len(), 0);
}
