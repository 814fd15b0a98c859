use rv32_emu::memory::NoMmio;
use rv32_emu::{AddressSpace, Cpu, Fault, ObjectImage, ObjectMemory, Regs, Segment};

fn code_segment() -> Segment {
    Segment {
        address: 0x1000_0000,
        size: 8,
        writable: false,
        // addi t0, zero, 1; ebreak
        data: Some(vec![0x93, 0x02, 0x10, 0x00, 0x73, 0x00, 0x10, 0x00]),
    }
}

fn data_segment() -> Segment {
    Segment { address: 0x2000_0000, size: 8, writable: true, data: Some(vec![1, 2, 3, 4]) }
}

fn image() -> ObjectImage {
    ObjectImage { entry: 0x1000_0000, segments: vec![code_segment(), data_segment()] }
}

#[test]
fn object_memory_reads_segments_and_stack() {
    let mut stack = [0u8; 16];
    let mut memory = ObjectMemory::<NoMmio>::new(image(), &mut stack, vec![]).unwrap();
    assert_eq!(memory.instr_start(), 0x1000_0000);
    assert_eq!(memory.stack_top(), 0x3000_0010);
    assert_eq!(memory.read_32(0x1000_0000), Ok(0x0010_0293));
    assert_eq!(memory.read_16(0x1000_0002), Ok(0x0010));
    // The writable segment is padded with zeros to its size.
    assert_eq!(memory.read_32(0x2000_0000), Ok(0x0403_0201));
    assert_eq!(memory.read_32(0x2000_0004), Ok(0));
    assert_eq!(memory.read_8(0x3000_0000), Ok(0));
    assert_eq!(memory.read_8(0x4000_0000), Err(Fault::InvalidAddress(0x4000_0000)));
    // A read that runs past the end of the stack.
    assert_eq!(memory.read_32(0x3000_000E), Err(Fault::InvalidAddress(0x3000_000E)));
}

#[test]
fn object_memory_writes() {
    let mut stack = [0u8; 16];
    let mut memory = ObjectMemory::<NoMmio>::new(image(), &mut stack, vec![]).unwrap();
    assert_eq!(memory.write_32(0x2000_0004, 0xAABB_CCDD), Ok(()));
    assert_eq!(memory.read_32(0x2000_0004), Ok(0xAABB_CCDD));
    assert_eq!(memory.read_8(0x2000_0007), Ok(0xAA));
    assert_eq!(memory.write_16(0x2000_0000, 0x1234), Ok(()));
    assert_eq!(memory.read_32(0x2000_0000), Ok(0x0403_1234));
    // Segments that are not writable take no writes.
    assert_eq!(memory.write_8(0x1000_0000, 1), Err(Fault::InvalidAddress(0x1000_0000)));
    assert_eq!(memory.read_8(0x1000_0000), Ok(0x93));
    assert_eq!(memory.write_32(0x3000_000C, 0x0102_0304), Ok(()));
    assert_eq!(memory.read_16(0x3000_000E), Ok(0x0102));
    drop(memory);
    assert_eq!(stack[12..], [4, 3, 2, 1]);
}

#[test]
fn object_memory_refuses_malformed_images() {
    let too_high = ObjectImage {
        entry: 0,
        segments: vec![Segment { address: 0x1_0000_0000, size: 4, writable: false, data: None }],
    };
    assert!(matches!(
        ObjectMemory::<NoMmio>::new(too_high, &mut [], vec![]),
        Err(Fault::ObjectError)
    ));

    let wraps = ObjectImage {
        entry: 0,
        segments: vec![Segment { address: 0xFFFF_FFF0, size: 0x20, writable: false, data: None }],
    };
    assert!(matches!(ObjectMemory::<NoMmio>::new(wraps, &mut [], vec![]), Err(Fault::ObjectError)));

    let unreadable = ObjectImage {
        entry: 0,
        segments: vec![Segment { address: 0x2000_0000, size: 4, writable: true, data: None }],
    };
    assert!(matches!(
        ObjectMemory::<NoMmio>::new(unreadable, &mut [], vec![]),
        Err(Fault::ObjectError)
    ));
}

#[test]
fn object_memory_unreadable_segment_faults_on_read() {
    let img = ObjectImage {
        entry: 0x1000_0000,
        segments: vec![Segment { address: 0x1000_0000, size: 4, writable: false, data: None }],
    };
    let mut memory = ObjectMemory::<NoMmio>::new(img, &mut [], vec![]).unwrap();
    assert_eq!(memory.read_8(0x1000_0001), Err(Fault::ObjectError));
}

#[test]
fn object_memory_runs_a_program() {
    let mut stack = [0u8; 64];
    let mut memory = ObjectMemory::<NoMmio>::new(image(), &mut stack, vec![]).unwrap();
    let mut cpu = Cpu::new(&mut memory);
    cpu.reset(None).unwrap();
    assert_eq!(cpu.read_reg(Regs::Sp), 0x3000_0040);
    assert_eq!(cpu.run_for(10), Some(Ok((0, 0))));
    assert_eq!(cpu.read_reg(Regs::T0), 1);
}

/// A little-endian ELF32 RISC-V executable with one loadable segment of `code`.
fn elf32(entry: u32, vaddr: u32, code: &[u8]) -> Vec<u8> {
    let mut f = Vec::new();
    f.extend_from_slice(&[0x7F, b'E', b'L', b'F', 1, 1, 1, 0]);
    f.extend_from_slice(&[0; 8]);
    f.extend_from_slice(&2u16.to_le_bytes()); // executable
    f.extend_from_slice(&0xF3u16.to_le_bytes()); // RISC-V
    f.extend_from_slice(&1u32.to_le_bytes());
    f.extend_from_slice(&entry.to_le_bytes());
    f.extend_from_slice(&52u32.to_le_bytes()); // program headers
    f.extend_from_slice(&0u32.to_le_bytes()); // no section headers
    f.extend_from_slice(&0u32.to_le_bytes());
    f.extend_from_slice(&52u16.to_le_bytes());
    f.extend_from_slice(&32u16.to_le_bytes());
    f.extend_from_slice(&1u16.to_le_bytes());
    f.extend_from_slice(&40u16.to_le_bytes());
    f.extend_from_slice(&0u16.to_le_bytes());
    f.extend_from_slice(&0u16.to_le_bytes());
    // PT_LOAD, readable and executable
    f.extend_from_slice(&1u32.to_le_bytes());
    f.extend_from_slice(&84u32.to_le_bytes());
    f.extend_from_slice(&vaddr.to_le_bytes());
    f.extend_from_slice(&vaddr.to_le_bytes());
    f.extend_from_slice(&(code.len() as u32).to_le_bytes());
    f.extend_from_slice(&(code.len() as u32).to_le_bytes());
    f.extend_from_slice(&5u32.to_le_bytes());
    f.extend_from_slice(&4u32.to_le_bytes());
    f.extend_from_slice(code);
    f
}

#[test]
fn object_image_parses_an_elf_file() {
    let code = [0x93, 0x02, 0x10, 0x00, 0x73, 0x00, 0x10, 0x00];
    let file = elf32(0x1000_0000, 0x1000_0000, &code);
    let img = ObjectImage::parse(&file).unwrap();
    assert_eq!(img.entry, 0x1000_0000);
    assert_eq!(img.segments.len(), 1);
    assert_eq!(img.segments[0].address, 0x1000_0000);
    assert_eq!(img.segments[0].size, 8);
    assert!(!img.segments[0].writable);
    assert_eq!(img.segments[0].data.as_deref(), Some(&code[..]));

    let mut stack = [0u8; 16];
    let mut memory = ObjectMemory::<NoMmio>::new(img, &mut stack, vec![]).unwrap();
    let mut cpu = Cpu::new(&mut memory);
    cpu.reset(None).unwrap();
    assert_eq!(cpu.run_for(10), Some(Ok((0, 0))));
    assert_eq!(cpu.read_reg(Regs::T0), 1);
}

#[test]
fn object_image_refuses_garbage() {
    assert!(matches!(ObjectImage::parse(b"not an executable"), Err(Fault::ObjectError)));
    assert!(matches!(ObjectImage::parse(&[]), Err(Fault::ObjectError)));
}

#[test]
fn object_memory_tells_whether_it_serves_every_access() {
    let mut stack = [0u8; 16];
    let memory = ObjectMemory::<NoMmio>::new(image(), &mut stack, vec![]).unwrap();
    // The writable segment holds fewer bytes in the file than its size: it is padded.
    assert!(memory.can_serve_all());

    let short_code = ObjectImage {
        entry: 0x1000_0000,
        segments: vec![Segment { address: 0x1000_0000, size: 8, writable: false, data: Some(vec![0; 4]) }],
    };
    let memory = ObjectMemory::<NoMmio>::new(short_code, &mut [], vec![]).unwrap();
    assert!(!memory.can_serve_all());

    let at_zero = ObjectImage {
        entry: 0,
        segments: vec![Segment { address: 0, size: 2, writable: false, data: Some(vec![0; 2]) }],
    };
    let memory = ObjectMemory::<NoMmio>::new(at_zero, &mut [], vec![]).unwrap();
    assert!(!memory.can_serve_all());

    let unreadable = ObjectImage {
        entry: 0,
        segments: vec![Segment { address: 0x1000_0000, size: 4, writable: false, data: None }],
    };
    let memory = ObjectMemory::<NoMmio>::new(unreadable, &mut [], vec![]).unwrap();
    assert!(memory.can_serve_all());
}

#[test]
fn object_memory_counts_its_writable_segments() {
    let mut stack = [0u8; 16];
    let memory = ObjectMemory::<NoMmio>::new(image(), &mut stack, vec![]).unwrap();
    assert_eq!(memory.writable_segment_count(), 1);
}
