use rv32_emu::board::{AddressSpace, Cpu, DATA_MEM_END, INSTR_MEM_BASE};
use rv32_emu::{sign_extend32, RegArray, Regs};

#[test]
fn tests_sign_extend_test() {
    let pos = 0b010010;
    assert_eq!(18, sign_extend32(pos, 6));

    let neg = 0b100110;
    assert_eq!(0b11111111111111111111111111100110, sign_extend32(neg, 6));

    let neg2 = 0b110101100001;
    assert_eq!(0b11111111111111111111110101100001, sign_extend32(neg2, 12));
}

#[test]
fn tests_initialization_test() {
    let mut memory = AddressSpace::new();
    let mut regs = RegArray::new();

    let mut cpu = Cpu::new(&mut regs, &mut memory);
    cpu.reset(None, Some(&[0x00, 0x00, 0x00, 0x00])); // We don't intend to execute this!

    assert_eq!(cpu.pc, INSTR_MEM_BASE);
    assert_eq!(cpu.read_reg(Regs::Sp), DATA_MEM_END);
}

const PROGRAM_NOP: [u8; 4] = [
    0x13, 0x00, 0x00, 0x00, // nop
];

#[test]
fn tests_program_nop() {
    let mut memory = AddressSpace::new();
    let mut regs = RegArray::new();

    let mut cpu = Cpu::new(&mut regs, &mut memory);
    cpu.reset(None, Some(&PROGRAM_NOP));

    let _ = cpu.step();
}

const PROGRAM_ADDI: [u8; 4] = [
    0x93, 0x02, 0x10, 0x00, // addi t0, zero, 1
];

#[test]
fn tests_program_addi() {
    let mut memory = AddressSpace::new();
    let mut regs = RegArray::new();

    let mut cpu = Cpu::new(&mut regs, &mut memory);
    cpu.reset(None, Some(&PROGRAM_ADDI));

    let _ = cpu.step();

    assert_eq!(cpu.read_reg(Regs::T0), 1);
}

const PROGRAM_MEMWRITE: [u8; 16] = [
    // construct 46a98 in t0
    0xb7, 0x72, 0x04, 0x00, // lui t0, 0x47
    0x93, 0x82, 0x82, 0xA9, // addi t0, t0, -1384
    // write t0 to memory at 0x2000_0000
    0x37, 0x03, 0x00, 0x20, // lui t1, 0x20000
    0x23, 0x20, 0x53, 0x00, // sw t0,0(t1)
];

#[test]
fn tests_program_memwrite() {
    let mut memory = AddressSpace::new();
    let mut regs = RegArray::new();

    let mut cpu = Cpu::new(&mut regs, &mut memory);
    cpu.reset(None, Some(&PROGRAM_MEMWRITE));

    let _ = cpu.step();
    let _ = cpu.step();
    let _ = cpu.step();
    let _ = cpu.step();

    assert_eq!(cpu.memory.read_32(0x2000_0000), Ok(0x46A98));
    assert_eq!(cpu.pc, INSTR_MEM_BASE + 16);
}

// The board's hart runs jumps, branches, JALR and AUIPC as RV32I specifies them.

fn words(ws: &[u32]) -> Vec<u8> {
    ws.iter().flat_map(|w| w.to_le_bytes()).collect()
}

const EBREAK: u32 = 0x0010_0073;

fn addi(rd: u32, rs1: u32, imm: i32) -> u32 {
    ((imm as u32) & 0xFFF) << 20 | rs1 << 15 | rd << 7 | 0b0010011
}

fn run_on_board(program: &[u8]) -> (Option<Result<(), rv32_emu::Fault>>, RegArray) {
    let mut memory = AddressSpace::new();
    let mut regs = RegArray::new();
    let mut cpu = Cpu::new(&mut regs, &mut memory);
    cpu.reset(None, Some(program));
    let out = cpu.run_for(100);
    (out, regs)
}

#[test]
fn board_branch_goes_to_its_target() {
    let program = words(&[
        addi(5, 0, 1),
        0x0002_9463, // bne t0, zero, 8: taken, to 0x10
        addi(10, 0, 99),
        addi(10, 0, 98),
        addi(11, 0, 7),
        EBREAK,
    ]);
    let (out, regs) = run_on_board(&program);
    assert_eq!(out, Some(Ok(())));
    assert_eq!(regs.read(Regs::A0), 98);
    assert_eq!(regs.read(Regs::A1), 7);
}

#[test]
fn board_jal_goes_to_its_target() {
    let program = words(&[0x0080_00EF, addi(10, 0, 1), addi(10, 0, 2), addi(11, 0, 3), EBREAK]);
    let (out, regs) = run_on_board(&program);
    assert_eq!(out, Some(Ok(())));
    assert_eq!(regs.read(Regs::A0), 2);
    assert_eq!(regs.read(Regs::A1), 3);
    assert_eq!(regs.read(Regs::Ra), 0x1000_0004);
}

#[test]
fn board_jalr_reads_the_base_first() {
    let program = words(&[
        0x1000_02B7, // lui t0, 0x10000
        0x00C2_82E7, // jalr t0, 12(t0): to 0x1000_000C
        addi(10, 0, 1),
        addi(11, 0, 5),
        EBREAK,
    ]);
    let (out, regs) = run_on_board(&program);
    assert_eq!(out, Some(Ok(())));
    assert_eq!(regs.read(Regs::A0), 0);
    assert_eq!(regs.read(Regs::A1), 5);
    assert_eq!(regs.read(Regs::T0), 0x1000_0008);
}

#[test]
fn board_decodes_auipc() {
    // addi zero, zero, 0; auipc a0, 1; ebreak
    let (out, regs) = run_on_board(&words(&[addi(0, 0, 0), 0x0000_1517, EBREAK]));
    assert_eq!(out, Some(Ok(())));
    assert_eq!(regs.read(Regs::A0), 0x1000_1004);
}

#[test]
fn board_ecall_with_a0_one_halts() {
    // addi a0, zero, 1; ecall; addi a1, zero, 7
    let (out, regs) = run_on_board(&words(&[addi(10, 0, 1), 0x0000_0073, addi(11, 0, 7)]));
    assert_eq!(out, Some(Ok(())));
    assert_eq!(regs.read(Regs::A1), 0);
}

#[test]
fn board_faults() {
    // Reading outside both regions.
    let program = words(&[0x0000_2503]); // lw a0, 0(zero)
    let (out, _) = run_on_board(&program);
    assert_eq!(out, Some(Err(rv32_emu::Fault::InvalidMemoryAccess(0))));
    // Writing to instruction memory.
    let program = words(&[0x1000_02B7, 0x0002_A023]); // lui t0, 0x10000; sw zero, 0(t0)
    let (out, _) = run_on_board(&program);
    assert_eq!(out, Some(Err(rv32_emu::Fault::InvalidMemoryAccess(0x1000_0000))));
}

#[test]
fn board_refuses_accesses_past_the_end_of_a_region() {
    let mut m = AddressSpace::new();
    assert_eq!(m.read_32(0x2000_03FE), Err(rv32_emu::Fault::InvalidMemoryAccess(0x2000_03FE)));
    assert_eq!(m.read_32(0x1000_03FF), Err(rv32_emu::Fault::InvalidMemoryAccess(0x1000_03FF)));
    assert_eq!(m.read_16(0x2000_03FF), Err(rv32_emu::Fault::InvalidMemoryAccess(0x2000_03FF)));
    assert_eq!(m.read_16(0x2000_03FE), Ok(0));
    assert_eq!(m.write_16(0x2000_03FF, 1), Err(rv32_emu::Fault::InvalidMemoryAccess(0x2000_03FF)));
    assert_eq!(m.write_32(0x2000_03FD, 1), Err(rv32_emu::Fault::InvalidMemoryAccess(0x2000_03FD)));
    assert_eq!(m.write_32(0x2000_03FC, 0x0102_0304), Ok(()));
    assert_eq!(m.read_32(0x2000_03FC), Ok(0x0102_0304));
    assert_eq!(m.read_8(0x2000_03FF), Ok(0x01));
}
