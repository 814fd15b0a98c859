use rv32_emu::{decode, AddressSpace, Cpu, Fault, Regs, SliceMemory};

// A small assembler for the instruction formats.

fn r_type(funct7: u32, rs2: u32, rs1: u32, funct3: u32, rd: u32) -> u32 {
    funct7 << 25 | rs2 << 20 | rs1 << 15 | funct3 << 12 | rd << 7 | 0b0110011
}

fn i_type(imm: i32, rs1: u32, funct3: u32, rd: u32, opcode: u32) -> u32 {
    ((imm as u32) & 0xFFF) << 20 | rs1 << 15 | funct3 << 12 | rd << 7 | opcode
}

fn addi(rd: u32, rs1: u32, imm: i32) -> u32 {
    i_type(imm, rs1, 0, rd, 0b0010011)
}

fn load(funct3: u32, rd: u32, rs1: u32, imm: i32) -> u32 {
    i_type(imm, rs1, funct3, rd, 0b0000011)
}

fn store(funct3: u32, rs2: u32, rs1: u32, imm: i32) -> u32 {
    let imm = imm as u32;
    ((imm >> 5) & 0x7F) << 25 | rs2 << 20 | rs1 << 15 | funct3 << 12 | (imm & 0x1F) << 7 | 0b0100011
}

fn branch(funct3: u32, rs1: u32, rs2: u32, imm: i32) -> u32 {
    let imm = imm as u32;
    ((imm >> 12) & 1) << 31
        | ((imm >> 5) & 0x3F) << 25
        | rs2 << 20
        | rs1 << 15
        | funct3 << 12
        | ((imm >> 1) & 0xF) << 8
        | ((imm >> 11) & 1) << 7
        | 0b1100011
}

fn lui(rd: u32, imm: u32) -> u32 {
    (imm << 12) | rd << 7 | 0b0110111
}

fn jal(rd: u32, imm: i32) -> u32 {
    let imm = imm as u32;
    ((imm >> 20) & 1) << 31
        | ((imm >> 1) & 0x3FF) << 21
        | ((imm >> 11) & 1) << 20
        | ((imm >> 12) & 0xFF) << 12
        | rd << 7
        | 0b1101111
}

fn jalr(rd: u32, rs1: u32, imm: i32) -> u32 {
    i_type(imm, rs1, 0, rd, 0b1100111)
}

const ECALL: u32 = 0x0000_0073;
const EBREAK: u32 = 0x0010_0073;

fn bytes_of(words: &[u32]) -> Vec<u8> {
    words.iter().flat_map(|w| w.to_le_bytes()).collect()
}

#[test]
fn exec_register_register_operations() {
    let program = bytes_of(&[
        addi(5, 0, -7),
        addi(6, 0, 3),
        r_type(0, 6, 5, 0, 10),    // add a0, t0, t1
        r_type(0x20, 6, 5, 0, 11), // sub a1, t0, t1
        r_type(0, 6, 6, 1, 12),    // sll a2, t1, t1
        r_type(0, 6, 5, 2, 13),    // slt a3, t0, t1
        r_type(0, 6, 5, 3, 14),    // sltu a4, t0, t1
        r_type(0, 6, 5, 4, 15),    // xor a5, t0, t1
        r_type(0, 6, 5, 5, 16),    // srl a6, t0, t1
        r_type(0x20, 6, 5, 5, 17), // sra a7, t0, t1
        r_type(0, 6, 5, 6, 18),    // or s2, t0, t1
        r_type(0, 6, 5, 7, 19),    // and s3, t0, t1
        EBREAK,
    ]);
    let mut ram = [0u8; 64];
    let mut memory = SliceMemory::new(&program, &mut ram).unwrap();
    let mut cpu = Cpu::new(&mut memory);
    cpu.reset(None).unwrap();
    assert_eq!(cpu.run_for(100), Some(Ok((0xFFFF_FFFC, 0xFFFF_FFF6))));
    assert_eq!(cpu.read_reg(Regs::A2), 24);
    assert_eq!(cpu.read_reg(Regs::A3), 1);
    assert_eq!(cpu.read_reg(Regs::A4), 0);
    assert_eq!(cpu.read_reg(Regs::A5), 0xFFFF_FFFA);
    assert_eq!(cpu.read_reg(Regs::A6), 0x1FFF_FFFF);
    assert_eq!(cpu.read_reg(Regs::A7), 0xFFFF_FFFF);
    assert_eq!(cpu.read_reg(Regs::S2), 0xFFFF_FFFB);
    assert_eq!(cpu.read_reg(Regs::S3), 1);
    // The halt leaves the program counter at the EBREAK.
    assert_eq!(cpu.pc, 0x1000_0000 + 12 * 4);
}

#[test]
fn exec_register_immediate_operations() {
    let program = bytes_of(&[
        addi(5, 0, -7),
        i_type(1, 5, 2, 10, 0b0010011),      // slti a0, t0, 1
        i_type(1, 5, 3, 11, 0b0010011),      // sltiu a1, t0, 1
        i_type(-1, 5, 4, 12, 0b0010011),     // xori a2, t0, -1
        i_type(0x123, 0, 6, 13, 0b0010011),  // ori a3, zero, 0x123
        i_type(0xF0, 5, 7, 14, 0b0010011),   // andi a4, t0, 0xF0
        i_type(4, 5, 1, 15, 0b0010011),      // slli a5, t0, 4
        i_type(28, 5, 5, 16, 0b0010011),     // srli a6, t0, 28
        i_type(0x401, 5, 5, 17, 0b0010011),  // srai a7, t0, 1
        i_type(-1, 5, 3, 18, 0b0010011),     // sltiu s2, t0, -1
        lui(19, 0x12345),
        EBREAK,
    ]);
    let mut memory = SliceMemory::new(&program, &mut []).unwrap();
    let mut cpu = Cpu::new(&mut memory);
    cpu.reset(None).unwrap();
    assert_eq!(cpu.run_for(100), Some(Ok((1, 0))));
    assert_eq!(cpu.read_reg(Regs::T0), 0xFFFF_FFF9);
    assert_eq!(cpu.read_reg(Regs::A2), 6);
    assert_eq!(cpu.read_reg(Regs::A3), 0x123);
    assert_eq!(cpu.read_reg(Regs::A4), 0xF0);
    assert_eq!(cpu.read_reg(Regs::A5), 0xFFFF_FF90);
    assert_eq!(cpu.read_reg(Regs::A6), 0xF);
    assert_eq!(cpu.read_reg(Regs::A7), 0xFFFF_FFFC);
    assert_eq!(cpu.read_reg(Regs::S2), 1);
    assert_eq!(cpu.read_reg(Regs::S3), 0x1234_5000);
}

#[test]
fn exec_loads_and_stores() {
    let program = bytes_of(&[
        lui(6, 0x20000),
        addi(5, 0, -128),
        store(2, 5, 6, 0), // sw t0, 0(t1)
        load(0, 10, 6, 0), // lb a0
        load(4, 11, 6, 0), // lbu a1
        load(1, 12, 6, 0), // lh a2
        load(5, 13, 6, 0), // lhu a3
        load(2, 14, 6, 0), // lw a4
        addi(7, 0, 0x234),
        store(0, 7, 6, 4), // sb t2, 4(t1)
        store(1, 7, 6, 6), // sh t2, 6(t1)
        load(2, 15, 6, 4), // lw a5, 4(t1)
        EBREAK,
    ]);
    let mut ram = [0u8; 16];
    let mut memory = SliceMemory::new(&program, &mut ram).unwrap();
    let mut cpu = Cpu::new(&mut memory);
    cpu.reset(None).unwrap();
    assert_eq!(cpu.run_for(100), Some(Ok((0xFFFF_FF80, 0x80))));
    assert_eq!(cpu.read_reg(Regs::A2), 0xFFFF_FF80);
    assert_eq!(cpu.read_reg(Regs::A3), 0xFF80);
    assert_eq!(cpu.read_reg(Regs::A4), 0xFFFF_FF80);
    assert_eq!(cpu.read_reg(Regs::A5), 0x0234_0034);
    assert_eq!(cpu.memory.read_8(0x2000_0004), Ok(0x34));
    drop(cpu);
    assert_eq!(ram[..8], [0x80, 0xFF, 0xFF, 0xFF, 0x34, 0x00, 0x34, 0x02]);
}

#[test]
fn exec_branch_goes_to_its_target() {
    let program = bytes_of(&[
        addi(5, 0, 1),
        branch(0, 5, 0, 8), // beq t0, zero, 8: not taken
        branch(1, 5, 0, 8), // bne t0, zero, 8: taken, to 0x10
        addi(10, 0, 99),
        addi(10, 0, 98),
        addi(11, 0, 7),
        EBREAK,
    ]);
    let mut memory = SliceMemory::new(&program, &mut []).unwrap();
    let mut cpu = Cpu::new(&mut memory);
    cpu.reset(None).unwrap();
    assert_eq!(cpu.run_for(100), Some(Ok((98, 7))));
}

#[test]
fn exec_branch_backwards_loops() {
    // a0 counts down from 3 to 0 while a1 counts the passes.
    let program = bytes_of(&[
        addi(10, 0, 3),
        addi(11, 11, 1),
        addi(10, 10, -1),
        branch(1, 10, 0, -8), // bne a0, zero, -8
        EBREAK,
    ]);
    let mut memory = SliceMemory::new(&program, &mut []).unwrap();
    let mut cpu = Cpu::new(&mut memory);
    cpu.reset(None).unwrap();
    assert_eq!(cpu.run_for(100), Some(Ok((0, 3))));
}

#[test]
fn exec_signed_and_unsigned_branches() {
    // t0 = -1, t1 = 1; each taken branch skips the word after it.
    let program = bytes_of(&[
        addi(5, 0, -1),
        addi(6, 0, 1),
        branch(4, 5, 6, 8), // blt t0, t1: taken
        addi(10, 10, 16),
        addi(10, 10, 1),
        branch(6, 5, 6, 8), // bltu t0, t1: not taken
        addi(11, 11, 1),
        branch(7, 5, 6, 8), // bgeu t0, t1: taken
        addi(11, 11, 16),
        addi(11, 11, 16),
        branch(5, 5, 6, 8), // bge t0, t1: not taken
        addi(11, 11, 2),
        EBREAK,
    ]);
    let mut memory = SliceMemory::new(&program, &mut []).unwrap();
    let mut cpu = Cpu::new(&mut memory);
    cpu.reset(None).unwrap();
    assert_eq!(cpu.run_for(100), Some(Ok((1, 19))));
}

#[test]
fn exec_jal_links_and_jumps() {
    let program = bytes_of(&[
        jal(1, 8), // to 0x08
        addi(10, 0, 1),
        addi(10, 0, 2),
        addi(11, 0, 3),
        EBREAK,
    ]);
    let mut memory = SliceMemory::new(&program, &mut []).unwrap();
    let mut cpu = Cpu::new(&mut memory);
    cpu.reset(None).unwrap();
    assert_eq!(cpu.run_for(100), Some(Ok((2, 3))));
    assert_eq!(cpu.read_reg(Regs::Ra), 0x1000_0004);
}

#[test]
fn exec_call_and_return() {
    // main: jal ra, f; addi a1, a0, 1; ebreak. f: addi a0, zero, 14; jalr zero, 0(ra)
    let program = bytes_of(&[jal(1, 12), addi(11, 10, 1), EBREAK, addi(10, 0, 14), jalr(0, 1, 0)]);
    let mut memory = SliceMemory::new(&program, &mut []).unwrap();
    let mut cpu = Cpu::new(&mut memory);
    cpu.reset(None).unwrap();
    assert_eq!(cpu.run_for(100), Some(Ok((14, 15))));
}

#[test]
fn exec_jalr_reads_the_base_before_writing_the_link() {
    let program = bytes_of(&[
        lui(5, 0x10000),
        jalr(5, 5, 12), // to 0x1000_000C; t0 = 0x1000_0008 afterwards
        addi(10, 0, 1),
        addi(11, 0, 5),
        EBREAK,
    ]);
    let mut memory = SliceMemory::new(&program, &mut []).unwrap();
    let mut cpu = Cpu::new(&mut memory);
    cpu.reset(None).unwrap();
    assert_eq!(cpu.run_for(100), Some(Ok((0, 5))));
    assert_eq!(cpu.read_reg(Regs::T0), 0x1000_0008);
}

#[test]
fn exec_auipc_adds_to_the_program_counter() {
    // addi zero, zero, 0; auipc a0, 1; ebreak
    let program = bytes_of(&[addi(0, 0, 0), 0x0000_1517, EBREAK]);
    let mut memory = SliceMemory::new(&program, &mut []).unwrap();
    let mut cpu = Cpu::new(&mut memory);
    cpu.reset(None).unwrap();
    assert_eq!(cpu.run_for(100), Some(Ok((0x1000_1004, 0))));
}

#[test]
fn exec_ecall_does_nothing_and_zero_stays_zero() {
    let program = bytes_of(&[ECALL, addi(0, 0, 5), addi(10, 0, 4), EBREAK]);
    let mut memory = SliceMemory::new(&program, &mut []).unwrap();
    let mut cpu = Cpu::new(&mut memory);
    cpu.reset(None).unwrap();
    assert_eq!(cpu.run_for(100), Some(Ok((4, 0))));
    assert_eq!(cpu.read_reg(Regs::Zero), 0);
}

#[test]
fn exec_ecall_with_a0_one_halts() {
    // addi a1, zero, 9; addi a0, zero, 1; ecall; addi a1, zero, 7
    let program = bytes_of(&[addi(11, 0, 9), addi(10, 0, 1), ECALL, addi(11, 0, 7)]);
    let mut memory = SliceMemory::new(&program, &mut []).unwrap();
    let mut cpu = Cpu::new(&mut memory);
    cpu.reset(None).unwrap();
    assert_eq!(cpu.run_for(100), Some(Ok((1, 9))));
    // The halt leaves the program counter at the ECALL.
    assert_eq!(cpu.pc, 0x1000_0008);
}

#[test]
fn exec_run_for_stops_after_the_given_steps() {
    let program = bytes_of(&[addi(10, 10, 1), addi(10, 10, 1), addi(10, 10, 1), EBREAK]);
    let mut memory = SliceMemory::new(&program, &mut []).unwrap();
    let mut cpu = Cpu::new(&mut memory);
    cpu.reset(None).unwrap();
    assert_eq!(cpu.run_for(0), None);
    assert_eq!(cpu.pc, 0x1000_0000);
    assert_eq!(cpu.run_for(2), None);
    assert_eq!(cpu.pc, 0x1000_0008);
    assert_eq!(cpu.read_reg(Regs::A0), 2);
    assert_eq!(cpu.run_for(5), Some(Ok((3, 0))));
}

#[test]
fn exec_faults_are_handed_back() {
    // A branch whose funct3 names no branch.
    let bad_branch = branch(2, 0, 0, 8);
    let program = bytes_of(&[bad_branch]);
    let mut memory = SliceMemory::new(&program, &mut []).unwrap();
    let mut cpu = Cpu::new(&mut memory);
    cpu.reset(None).unwrap();
    let decoded = decode(bad_branch).unwrap();
    assert_eq!(cpu.run_for(10), Some(Err(Fault::InvalidInstruction(decoded))));
    assert_eq!(cpu.pc, 0x1000_0000);

    // An unknown major opcode.
    let unknown = 0x0000_007F;
    let program = bytes_of(&[unknown]);
    let mut memory = SliceMemory::new(&program, &mut []).unwrap();
    let mut cpu = Cpu::new(&mut memory);
    cpu.reset(None).unwrap();
    assert_eq!(cpu.step(), Err(Fault::UndecodedInstruction(unknown)));

    // The all-zero word.
    let program = [0u8; 4];
    let mut memory = SliceMemory::new(&program, &mut []).unwrap();
    let mut cpu = Cpu::new(&mut memory);
    cpu.reset(None).unwrap();
    assert_eq!(cpu.step(), Err(Fault::AllZeroInstruction));

    // Running off the end of instruction memory.
    let program = bytes_of(&[addi(10, 0, 1)]);
    let mut memory = SliceMemory::new(&program, &mut []).unwrap();
    let mut cpu = Cpu::new(&mut memory);
    cpu.reset(None).unwrap();
    assert_eq!(cpu.run_for(10), Some(Err(Fault::InvalidAddress(0x1000_0004))));
    assert_eq!(cpu.read_reg(Regs::A0), 1);

    // A store to instruction memory.
    let program = bytes_of(&[lui(6, 0x10000), store(2, 0, 6, 0)]);
    let mut memory = SliceMemory::new(&program, &mut []).unwrap();
    let mut cpu = Cpu::new(&mut memory);
    cpu.reset(None).unwrap();
    assert_eq!(cpu.run_for(10), Some(Err(Fault::ReadOnlyAddress(0x1000_0000))));

    // A load with an undefined width.
    let bad_load = load(3, 10, 0, 0);
    let program = bytes_of(&[bad_load]);
    let mut memory = SliceMemory::new(&program, &mut []).unwrap();
    let mut cpu = Cpu::new(&mut memory);
    cpu.reset(None).unwrap();
    assert_eq!(cpu.step(), Err(Fault::InvalidInstruction(decode(bad_load).unwrap())));
}

#[test]
fn exec_reset_with_entry_point_and_stack() {
    let mut ram = [0u8; 256];
    let mut memory = SliceMemory::new(&[], &mut ram).unwrap();
    let mut cpu = Cpu::new(&mut memory);
    cpu.reset(Some(0x1234)).unwrap();
    assert_eq!(cpu.pc, 0x1234);
    assert_eq!(cpu.read_reg(Regs::Sp), 0x2000_0100);
    cpu.write_reg(Regs::A0, 9);
    assert_eq!(cpu.read_reg(Regs::A0), 9);
    cpu.write_reg(Regs::Zero, 9);
    assert_eq!(cpu.read_reg(Regs::Zero), 0);
    assert_eq!(cpu.memory.stack_top(), 0x2000_0100);
}
