# orrel

An eBPF instruction decoder, its inverse encoder, and an interpreter for the
arithmetic (ALU / ALU64) instructions, written in Verus with their behaviour
stated in contracts and proved.

- `src/opcode.rs` – instruction-set constants and the instruction class.
- `src/insn.rs` – `Insn`, `decode` and the specification of decoding.
- `src/encode.rs` – `encode_insn`, `encode_program`.
- `src/stream_laws.rs` – slot accounting, both round trips, truncated wide loads.
- `src/alu.rs` – the value computations of the arithmetic instructions.
- `src/vm.rs` – the register file, `Vm::exec_alu` and `Vm::run`.
- `src/vm_laws.rs` – register-file and arithmetic properties.
- `src/objdump.rs`, `src/oracle.rs` – reading `llvm-objdump -d` listings and
  comparing them with the decoder's output.
- `app/` – the `disasm` command (and, invoked as `oracle`, the comparison
  with llvm-objdump): file and process I/O and printing.

The byte-order conversion of the 32-bit class follows the host's byte order,
which `Vm::new` reads once from `u16::to_ne_bytes`.
