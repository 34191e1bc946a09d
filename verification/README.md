# rv32e_16b

A simulator for RV32E-16B, a RISC-V RV32E variant whose memory is addressed in
16-bit cells: the PC advances by 2 cells per instruction, `LB`/`LH` load one
cell sign-extended, `LBU`/`LHU` one cell zero-extended, `SB`/`SH` store one
cell, `LW`/`SW` two cells (low half first). A cell store to `0x10000000` goes to
the UART.

The library in `src/` is verified with Verus: every step of the machine is
proved to match a mathematical model of the ISA (`cpu::spec_step`), and the
decoder, loader, number parsing and the guest runtime routines are proved
against their specifications.

- `src/isa.rs` — instruction fields and ALU operations as arithmetic
- `src/decode.rs` — the instruction decoder
- `src/registers.rs`, `src/memory.rs` — register file (x0 = 0) and cell memory
- `src/cpu.rs` — machine state, `step`, `run`, program loading, and laws
- `src/loader.rs` — ELF and flat-binary images
- `src/parse.rs` — decimal / `0x` hex numbers
- `src/runtime.rs` — Fibonacci, division by 10, decimal and hex text
- `app/main.rs` — the command-line program (file reading, printing)

Run with `app/main.rs` as the binary: no arguments runs a built-in demo (sum of
1 to 5); `PROGRAM [--set ADDR=VALUE ...]` loads an ELF file or flat binary.
