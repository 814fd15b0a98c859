# rv32_emu

An emulator of the RV32I base integer instruction set, written in Verus. The functions of
the library carry contracts that Verus proves: the decoder, the execution of each
instruction, the memories and their devices, the runs of a CPU, and the front end's parsing
of command-line values and hexadecimal programs. Four small functions that call outside
code are believed, not proved (`#[verifier::external_body]`): `hex_decode` (`hex::decode`),
`parse_object_file` (the `object` crate's parser), and `into_boxed_slice` and
`boxed_slice_as_array` (std's boxed slices).

## Layout

- `src/isa.rs`: registers, decoded instructions and faults.
- `src/bits.rs`, `src/le.rs`: sign extension and little-endian byte order.
- `src/decode.rs`: the decoder, against `decode_spec`.
- `src/semantics.rs`: what each instruction does, as spec functions (`effect`, `step_post`).
- `src/hart.rs`: the register file and the executable step, proved against `step_post`.
- `src/run.rs`: runs of several steps, and when every access of a run is served.
- `src/memory.rs`: the `AddressSpace` and `MMIO` traits, and `SliceMemory`.
- `src/object_memory.rs`: the memory of a loaded executable (`ObjectMemory`), read with the
  `object` crate.
- `src/stdio.rs`: the standard input/output device.
- `src/board.rs`: the fixed board with 1 KiB of instruction and 1 KiB of data memory, and
  its CPU.
- `src/cpu.rs`: the CPU over any address space.
- `src/cli.rs`: the front end's decisions (hexadecimal arguments, verbosity, file kinds,
  hexadecimal programs).
- `src/laws.rs`: properties of the library as a whole, proved.
- `app/main.rs`: the command-line program: argument parsing, logging, files, the standard
  streams, and the unbounded run loop.
- `tests/`: tests on concrete values.
