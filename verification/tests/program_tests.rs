//! Programs written the way a C compiler lays them out: stack frames, calls and returns,
//! branches, and data copied out of instruction memory.

use rv32_emu::{create_boxed_array, create_boxed_slice, AddressSpace, Cpu, Regs, SliceMemory};

fn i_type(imm: i32, rs1: u32, funct3: u32, rd: u32, opcode: u32) -> u32 {
    ((imm as u32) & 0xFFF) << 20 | rs1 << 15 | funct3 << 12 | rd << 7 | opcode
}

fn addi(rd: u32, rs1: u32, imm: i32) -> u32 {
    i_type(imm, rs1, 0, rd, 0b0010011)
}

fn store(funct3: u32, rs2: u32, rs1: u32, imm: i32) -> u32 {
    let imm = imm as u32;
    ((imm >> 5) & 0x7F) << 25 | rs2 << 20 | rs1 << 15 | funct3 << 12 | (imm & 0x1F) << 7 | 0b0100011
}

fn branch(funct3: u32, rs1: u32, rs2: u32, imm: i32) -> u32 {
    let imm = imm as u32;
    ((imm >> 12) & 1) << 31
        | ((imm >> 5) & 0x3F) << 25
        | rs2 << 20
        | rs1 << 15
        | funct3 << 12
        | ((imm >> 1) & 0xF) << 8
        | ((imm >> 11) & 1) << 7
        | 0b1100011
}

fn jal(rd: u32, imm: i32) -> u32 {
    let imm = imm as u32;
    ((imm >> 20) & 1) << 31
        | ((imm >> 1) & 0x3FF) << 21
        | ((imm >> 11) & 1) << 20
        | ((imm >> 12) & 0xFF) << 12
        | rd << 7
        | 0b1101111
}

const EBREAK: u32 = 0x0010_0073;
const SP: u32 = 2;
const RA: u32 = 1;
const T0: u32 = 5;
const A0: u32 = 10;
const A1: u32 = 11;
const A2: u32 = 12;
const A3: u32 = 13;
const A4: u32 = 14;
const A5: u32 = 15;

fn bytes_of(words: &[u32]) -> Vec<u8> {
    words.iter().flat_map(|w| w.to_le_bytes()).collect()
}

#[test]
fn program_stores_into_its_frame() {
    let program = bytes_of(&[
        addi(SP, SP, -16),
        0x00C1_07B7, // lui a5, 0xC10
        addi(A5, A5, -18),
        store(2, A5, SP, 12), // sw a5, 12(sp)
        addi(SP, SP, 16),
        EBREAK,
    ]);
    let mut ram = create_boxed_slice(1024);
    let mut memory = SliceMemory::new(&program, &mut ram).unwrap();
    let mut cpu = Cpu::new(&mut memory);
    cpu.reset(None).unwrap();
    assert!(matches!(cpu.run_for(100), Some(Ok(_))));
    assert_eq!(cpu.memory.read_32(cpu.read_reg(Regs::Sp) - 4).unwrap(), 0xC0FFEE);
}

#[test]
fn program_calls_a_function() {
    let program = bytes_of(&[
        // main
        addi(SP, SP, -16),
        store(2, RA, SP, 12), // sw ra, 12(sp)
        addi(A0, 0, 5),
        jal(RA, 16),                   // call f
        i_type(12, SP, 2, RA, 0b0000011), // lw ra, 12(sp)
        addi(SP, SP, 16),
        EBREAK,
        // f: a0 * 3
        i_type(1, A0, 1, T0, 0b0010011), // slli t0, a0, 1
        T0 << 20 | A0 << 15 | A0 << 7 | 0b0110011, // add a0, a0, t0
        i_type(0, RA, 0, 0, 0b1100111), // ret
    ]);
    let mut ram = create_boxed_array::<1024>();
    let mut memory = SliceMemory::new(&program, &mut *ram).unwrap();
    let mut cpu = Cpu::new(&mut memory);
    cpu.reset(None).unwrap();
    assert_eq!(cpu.run_for(100).unwrap().unwrap().0, 15);
}

#[test]
fn program_branches_on_an_input_byte() {
    let program = bytes_of(&[
        i_type(-1, SP, 4, A5, 0b0000011), // lbu a5, -1(sp)
        i_type(1, A5, 7, A5, 0b0010011),  // andi a5, a5, 1
        branch(0, A5, 0, 12),             // beq a5, zero, even
        addi(A0, 0, 45),
        jal(0, 8), // j end
        addi(A0, 0, 12), // even:
        EBREAK,          // end:
    ]);
    let mut ram = [0u8; 1024];
    let mut memory = SliceMemory::new(&program, &mut ram).unwrap();
    memory.write_8(memory.stack_top() - 1, 41).unwrap(); // odd

    let mut cpu = Cpu::new(&mut memory);
    cpu.reset(None).unwrap();
    assert_eq!(cpu.run_for(100).unwrap().unwrap().0, 45);

    cpu.reset(None).unwrap();
    cpu.memory.write_8(cpu.memory.stack_top() - 1, 70).unwrap(); // even
    assert_eq!(cpu.run_for(100).unwrap().unwrap().0, 12);
}

#[test]
fn program_copies_a_literal() {
    let mut program = bytes_of(&[
        0x0000_0597,         // auipc a1, 0
        addi(A1, A1, 48),    // a1 = the literal
        addi(A2, SP, -8),    // a2 = the destination
        addi(A3, 0, 8),      // a3 = its length
        i_type(0, A1, 4, A4, 0b0000011), // loop: lbu a4, 0(a1)
        store(0, A4, A2, 0), // sb a4, 0(a2)
        addi(A1, A1, 1),
        addi(A2, A2, 1),
        addi(A3, A3, -1),
        branch(1, A3, 0, -20), // bne a3, zero, loop
        EBREAK,
        0,
    ]);
    program.extend_from_slice(b"Testing\0");
    let mut ram = create_boxed_slice(1024);
    let mut memory = SliceMemory::new(&program, &mut ram).unwrap();
    let mut cpu = Cpu::new(&mut memory);
    cpu.reset(None).unwrap();
    assert!(matches!(cpu.run_for(1000), Some(Ok(_))));

    let mut buffer = [0u8; 8];
    let dst_addr = cpu.read_reg(Regs::Sp) - 8;
    for (i, item) in buffer.iter_mut().enumerate() {
        *item = cpu.memory.read_8(dst_addr + (i as u32)).unwrap();
    }
    assert_eq!(&buffer, b"Testing\0");
}
