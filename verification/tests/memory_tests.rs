use rv32_emu::{sign_extend32, AddressSpace, Cpu, Fault, Regs, SliceMemory};

#[test]
fn sign_extend_test() {
    let pos = 0b010010;
    assert_eq!(18, sign_extend32(pos, 6));

    let neg = 0b100110;
    assert_eq!(0b11111111111111111111111111100110, sign_extend32(neg, 6));

    let neg2 = 0b110101100001;
    assert_eq!(0b11111111111111111111110101100001, sign_extend32(neg2, 12));
}

#[test]
fn memrw_test() {
    let mut ram = [0u8; 1024];
    let mut memory = SliceMemory::new(&[], &mut ram).unwrap();

    // Test null pointer dereference (address 0)
    assert_eq!(
        memory.read_8(0x0000_0000),
        Err(Fault::InvalidAddress(0x0000_0000))
    );

    // Test reading from the stack top (beyond the valid stack memory range)
    let top = memory.stack_top();
    assert_eq!(memory.read_8(top), Err(Fault::InvalidAddress(top)));

    // Test reading from an address just below the stack top (valid)
    assert_eq!(memory.read_8(top - 1), Ok(0));

    // Test reading a halfword that spans the boundary of valid memory
    assert_eq!(memory.read_16(top - 1), Err(Fault::InvalidAddress(top - 1)));

    // Test reading from an empty instruction memory
    let start = memory.instr_start();
    assert_eq!(memory.read_8(start), Err(Fault::InvalidAddress(start)));

    let instr = [0xEF, 0xBE, 0xAD, 0xDE];
    let mut memory = SliceMemory::new(&instr, &mut ram).unwrap();
    let start = memory.instr_start();
    let top = memory.stack_top();

    // Test reading a word from instruction memory
    assert_eq!(memory.read_32(start), Ok(0xDEADBEEF));

    // Test unaligned reading a halfword from instruction memory
    assert_eq!(memory.read_16(start + 1), Ok(0xADBE));

    // Test reading a halfword from instruction memory that spans the boundary of valid memory
    assert_eq!(memory.read_16(start + 3), Err(Fault::InvalidAddress(start + 3)));

    // Test writing to instruction memory (which is read-only)
    assert_eq!(memory.write_16(start, 0x1234), Err(Fault::ReadOnlyAddress(start)));

    // Test writing to data memory
    let data_addr = top - 2;
    assert_eq!(memory.write_16(data_addr, 0xABCD), Ok(()));
    assert_eq!(memory.read_16(data_addr), Ok(0xABCD));

    // Test writing a word that spans the boundary of valid memory
    assert_eq!(memory.write_32(top - 2, 0x12345678), Err(Fault::InvalidAddress(top - 2)));
}

#[test]
fn initialization_test() {
    let mut memory = SliceMemory::new(&[], &mut []).unwrap();
    let mut cpu = Cpu::new(&mut memory);
    cpu.reset(None).unwrap(); // We don't intend to execute any instructions
}

const PROGRAM_NOP: [u8; 4] = [
    0x13, 0x00, 0x00, 0x00, // nop
];

#[test]
fn program_nop() {
    let mut memory = SliceMemory::new(&PROGRAM_NOP, &mut []).unwrap();
    let mut cpu = Cpu::new(&mut memory);
    cpu.reset(None).unwrap();

    cpu.step().unwrap();
}

const PROGRAM_ADDI: [u8; 8] = [
    0x93, 0x82, 0x12, 0x00, // addi t0, t0, 1
    0x93, 0x82, 0x22, 0x00, // addi t0, t0, 2
];

#[test]
fn program_addi() {
    let mut memory = SliceMemory::new(&PROGRAM_ADDI, &mut []).unwrap();
    let mut cpu = Cpu::new(&mut memory);

    // Only test with a specific entry point...
    cpu.reset(Some(0x1000_0004)).unwrap();

    cpu.step().unwrap();

    assert_eq!(cpu.read_reg(Regs::T0), 2);
}

const PROGRAM_MEMWRITE: [u8; 16] = [
    // construct 46a98 in t0
    0xb7, 0x72, 0x04, 0x00, // lui t0, 0x47
    0x93, 0x82, 0x82, 0xA9, // addi t0, t0, -1384
    // write t0 to memory at 0x2000_0000
    0x37, 0x03, 0x00, 0x20, // lui t1, 0x20000
    0x23, 0x20, 0x53, 0x00, // sw t0,0(t1)
];

#[test]
fn program_memwrite() {
    // RAM backed by stack-allocated array
    let mut ram = [0u8; 1024];

    let mut memory = SliceMemory::new(&PROGRAM_MEMWRITE, &mut ram).unwrap();
    let mut cpu = Cpu::new(&mut memory);
    cpu.reset(None).unwrap();

    cpu.step().unwrap();
    cpu.step().unwrap();
    cpu.step().unwrap();
    cpu.step().unwrap();

    assert_eq!(cpu.memory.read_32(0x2000_0000).unwrap(), 0x46A98);
    assert_eq!(cpu.pc, cpu.memory.instr_start() + 16);
}
