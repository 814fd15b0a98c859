use rv32_emu::board;
use rv32_emu::cli::bytecode_from_hex_text;
use rv32_emu::{sign_extend32, AddressSpace, Cpu, Fault, RegArray, Regs, SliceMemory};

#[test]
fn law_registers_read_back_what_was_written() {
    let mut regs = RegArray::new();
    regs.write(Regs::A0, 7);
    regs.write(Regs::A1, 9);
    regs.write(Regs::Zero, 5);
    assert_eq!(regs.read(Regs::A0), 7);
    assert_eq!(regs.read(Regs::A1), 9);
    assert_eq!(regs.read(Regs::Zero), 0);
    assert_eq!(regs.read(Regs::T6), 0);
    regs.write(Regs::A0, 8);
    assert_eq!(regs.read(Regs::A0), 8);
    assert_eq!(regs.read(Regs::A1), 9);
}

#[test]
fn law_sign_extension_on_values() {
    assert_eq!(sign_extend32(0x8000_0001, 32), 0x8000_0001);
    let once = sign_extend32(0xABC, 12);
    assert_eq!(once, 0xFFFF_FABC);
    assert_eq!(sign_extend32(once, 12), once);
    assert_eq!(sign_extend32(0x7FF, 12), 0x7FF);
    assert_eq!(sign_extend32(0xF07F, 8), 0x7F);
}

#[test]
fn law_slice_write_leaves_other_bytes() {
    let mut ram = [0xEEu8; 8];
    let mut memory = SliceMemory::new(&[], &mut ram).unwrap();
    assert_eq!(memory.write_16(0x2000_0003, 0x1122), Ok(()));
    assert_eq!(memory.read_8(0x2000_0002), Ok(0xEE));
    assert_eq!(memory.read_8(0x2000_0003), Ok(0x22));
    assert_eq!(memory.read_8(0x2000_0004), Ok(0x11));
    assert_eq!(memory.read_8(0x2000_0005), Ok(0xEE));
    assert_eq!(memory.read_32(0x2000_0002), Ok(0xEE11_22EE));
}

#[test]
fn law_board_memory() {
    let mut memory = board::AddressSpace::new();
    assert_eq!(memory.write_32(0x2000_0010, 0xCAFE_F00D), Ok(()));
    assert_eq!(memory.read_32(0x2000_0010), Ok(0xCAFE_F00D));
    assert_eq!(memory.read_16(0x2000_0012), Ok(0xCAFE));
    assert_eq!(memory.read_8(0x2000_0010), Ok(0x0D));
    assert_eq!(memory.write_8(0x1000_0000, 1), Err(Fault::InvalidMemoryAccess(0x1000_0000)));
    assert_eq!(memory.read_8(0x1000_0000), Ok(0));
    assert_eq!(memory.read_8(0), Err(Fault::InvalidMemoryAccess(0)));
    assert_eq!(memory.write_8(0x2000_0400, 1), Err(Fault::InvalidMemoryAccess(0x2000_0400)));
}

#[test]
fn law_hex_words_reversed_twice_come_back() {
    let once = bytecode_from_hex_text("0x01020304 0x0506").unwrap();
    assert_eq!(once, [0x04, 0x03, 0x02, 0x01, 0x06, 0x05]);
    let text: String = once.iter().map(|b| format!("{:02x}", b)).collect();
    assert_eq!(bytecode_from_hex_text(&text).unwrap(), [0x01, 0x02, 0x03, 0x04, 0x05, 0x06]);
}

// lui t0, 0x20000; addi t1, zero, 5; sw t1, 0(t0); addi t1, t1, 1; lw a0, 0(t0); ebreak
const COUNTING: [u8; 24] = [
    0xB7, 0x02, 0x00, 0x20, 0x13, 0x03, 0x50, 0x00, 0x23, 0xA0, 0x62, 0x00, 0x13, 0x03, 0x13,
    0x00, 0x03, 0xA5, 0x02, 0x00, 0x73, 0x00, 0x10, 0x00,
];

#[test]
fn law_board_runs_are_deterministic() {
    let mut outcomes = Vec::new();
    for _ in 0..2 {
        let mut memory = board::AddressSpace::new();
        let mut regs = RegArray::new();
        let mut cpu = board::Cpu::new(&mut regs, &mut memory);
        cpu.reset(None, Some(&COUNTING));
        let out = cpu.run_for(100);
        let pc = cpu.pc;
        outcomes.push((out, pc, regs.0, memory.read_32(0x2000_0000)));
    }
    assert_eq!(outcomes[0], outcomes[1]);
    assert_eq!(outcomes[0].0, Some(Ok(())));
    assert_eq!(outcomes[0].2[Regs::A0.index()], 5);
    assert_eq!(outcomes[0].2[Regs::T1.index()], 6);
    assert_eq!(outcomes[0].3, Ok(5));
}

#[test]
fn law_runs_compose_on_values() {
    let mut ram1 = [0u8; 16];
    let mut memory1 = SliceMemory::new(&COUNTING, &mut ram1).unwrap();
    let mut cpu1 = Cpu::new(&mut memory1);
    cpu1.reset(None).unwrap();
    assert_eq!(cpu1.run_for(2), None);
    assert_eq!(cpu1.run_for(2), None);
    let (regs1, pc1) = (cpu1.regs.0, cpu1.pc);

    let mut ram2 = [0u8; 16];
    let mut memory2 = SliceMemory::new(&COUNTING, &mut ram2).unwrap();
    let mut cpu2 = Cpu::new(&mut memory2);
    cpu2.reset(None).unwrap();
    assert_eq!(cpu2.run_for(4), None);
    assert_eq!((cpu2.regs.0, cpu2.pc), (regs1, pc1));
    assert_eq!(ram1, ram2);
}

#[test]
fn law_board_step_keeps_code_and_zero_on_values() {
    // lui t0, 0x10000; sw t0, 4(t0); addi zero, zero, 5
    let program: [u8; 12] = [0xB7, 0x02, 0x00, 0x10, 0x23, 0xA2, 0x52, 0x00, 0x13, 0x00, 0x50, 0x00];
    let mut memory = board::AddressSpace::new();
    let mut regs = RegArray::new();
    let mut cpu = board::Cpu::new(&mut regs, &mut memory);
    cpu.reset(None, Some(&program));
    assert_eq!(cpu.step(), Ok(()));
    assert_eq!(cpu.step(), Err(Fault::InvalidMemoryAccess(0x1000_0004)));
    assert_eq!(cpu.memory.read_32(0x1000_0004), Ok(0x0052_A223));
    cpu.pc = 0x1000_0008;
    assert_eq!(cpu.step(), Ok(()));
    assert_eq!(cpu.read_reg(Regs::Zero), 0);
    assert_eq!(regs.0[0], 0);
}
