use rv32e_16b::cpu::{Cpu, RunExit, StepResult};

fn run(program: &[u32]) -> Cpu {
    let mut cpu = Cpu::new(1024);
    cpu.load_program(0, program);
    for _ in 0..10000 {
        match cpu.step() {
            StepResult::Ebreak | StepResult::Ecall => break,
            StepResult::IllegalInstruction(raw) => {
                panic!("illegal instruction 0x{:08X} at pc=0x{:X}", raw, cpu.pc)
            }
            StepResult::Continue => {}
        }
    }
    cpu
}

// --- I-type ALU ---

#[test]
fn addi() {
    let cpu = run(&[
        0x00A00093, // addi x1, x0, 10
        0x01408113, // addi x2, x1, 20
        0xFFF08193, // addi x3, x1, -1
        0x00100073, // ebreak
    ]);
    assert_eq!(cpu.regs.read(1), 10);
    assert_eq!(cpu.regs.read(2), 30);
    assert_eq!(cpu.regs.read(3), 9);
}

#[test]
fn slti_sltiu() {
    let cpu = run(&[
        0x00500093, // addi x1, x0, 5
        0x00A0A113, // slti x2, x1, 10     -> 1 (5 < 10)
        0x0010A193, // slti x3, x1, 1      -> 0 (5 >= 1)
        0xFFF0B213, // sltiu x4, x1, -1    -> 1 (5 < 0xFFFFFFFF unsigned)
        0x00100073, // ebreak
    ]);
    assert_eq!(cpu.regs.read(2), 1);
    assert_eq!(cpu.regs.read(3), 0);
    assert_eq!(cpu.regs.read(4), 1);
}

#[test]
fn logical_imm() {
    let cpu = run(&[
        0x0FF00093, // addi x1, x0, 0xFF
        0x0F00C113, // xori x2, x1, 0xF0  -> 0x0F
        0x0F00E193, // ori  x3, x1, 0xF0  -> 0xFF
        0x0F00F213, // andi x4, x1, 0xF0  -> 0xF0
        0x00100073, // ebreak
    ]);
    assert_eq!(cpu.regs.read(2), 0x0F);
    assert_eq!(cpu.regs.read(3), 0xFF);
    assert_eq!(cpu.regs.read(4), 0xF0);
}

#[test]
fn shifts_imm() {
    let cpu = run(&[
        0x00100093, // addi x1, x0, 1
        0x01009113, // slli x2, x1, 16    -> 0x10000
        0x01015193, // srli x3, x2, 16    -> 1
        0xFFF00213, // addi x4, x0, -1    (0xFFFFFFFF)
        0x41F25293, // srai x5, x4, 31    -> 0xFFFFFFFF (sign extend)
        0x01F2D313, // srli x6, x5, 31    -> 1
        0x00100073, // ebreak
    ]);
    assert_eq!(cpu.regs.read(2), 0x10000);
    assert_eq!(cpu.regs.read(3), 1);
    assert_eq!(cpu.regs.read(5), 0xFFFFFFFF);
    assert_eq!(cpu.regs.read(6), 1);
}

// --- R-type ALU ---

#[test]
fn add_sub() {
    let cpu = run(&[
        0x01400093, // addi x1, x0, 20
        0x00A00113, // addi x2, x0, 10
        0x002081B3, // add x3, x1, x2     -> 30
        0x40208233, // sub x4, x1, x2     -> 10
        0x40110293, // addi x5, x2, 0x401
        0x00100073, // ebreak
    ]);
    assert_eq!(cpu.regs.read(3), 30);
    assert_eq!(cpu.regs.read(4), 10);
}

#[test]
fn slt_sltu() {
    let cpu = run(&[
        0xFFF00093, // addi x1, x0, -1    (0xFFFFFFFF)
        0x00100113, // addi x2, x0, 1
        0x0020A1B3, // slt x3, x1, x2     -> 1 (-1 < 1 signed)
        0x0020B233, // sltu x4, x1, x2    -> 0 (0xFFFFFFFF > 1 unsigned)
        0x00100073, // ebreak
    ]);
    assert_eq!(cpu.regs.read(3), 1);
    assert_eq!(cpu.regs.read(4), 0);
}

#[test]
fn logical_reg() {
    let cpu = run(&[
        0x0AA00093, // addi x1, x0, 0xAA
        0x05500113, // addi x2, x0, 0x55
        0x0020C1B3, // xor x3, x1, x2     -> 0xFF
        0x0020E233, // or  x4, x1, x2     -> 0xFF
        0x0020F2B3, // and x5, x1, x2     -> 0x00
        0x00100073, // ebreak
    ]);
    assert_eq!(cpu.regs.read(3), 0xFF);
    assert_eq!(cpu.regs.read(4), 0xFF);
    assert_eq!(cpu.regs.read(5), 0x00);
}

// --- LUI / AUIPC ---

#[test]
fn lui() {
    let cpu = run(&[
        0xDEADC0B7, // lui x1, 0xDEADC  -> 0xDEADC000
        0x00100073, // ebreak
    ]);
    assert_eq!(cpu.regs.read(1), 0xDEADC000);
}

#[test]
fn auipc() {
    let cpu = run(&[
        0x00001097, // auipc x1, 1       -> PC(0) + 0x1000 = 0x1000
        0x00100073, // ebreak
    ]);
    assert_eq!(cpu.regs.read(1), 0x1000);
}

// --- Branches ---

#[test]
fn beq_taken() {
    let cpu = run(&[
        0x00500093, // addi x1, x0, 5
        0x00500113, // addi x2, x0, 5
        0x00208263, // beq x1, x2, +4
        0x00000093, // addi x1, x0, 0     (skipped)
        0x00100073, // ebreak              (cell 8)
    ]);
    assert_eq!(cpu.regs.read(1), 5);
}

#[test]
fn beq_not_taken() {
    let cpu = run(&[
        0x00500093, // addi x1, x0, 5
        0x00A00113, // addi x2, x0, 10
        0x00208263, // beq x1, x2, +4     -> not taken (5 != 10)
        0x00000093, // addi x1, x0, 0     (executed)
        0x00100073, // ebreak
    ]);
    assert_eq!(cpu.regs.read(1), 0);
}

#[test]
fn bne() {
    let cpu = run(&[
        0x00500093, // addi x1, x0, 5
        0x00A00113, // addi x2, x0, 10
        0x00209263, // bne x1, x2, +4     -> taken (5 != 10)
        0x00000093, // addi x1, x0, 0     (skipped)
        0x00100073, // ebreak
    ]);
    assert_eq!(cpu.regs.read(1), 5);
}

#[test]
fn blt_bge() {
    let cpu = run(&[
        0x00500093, // addi x1, x0, 5
        0x00A00113, // addi x2, x0, 10
        0x0020C263, // blt x1, x2, +4     -> taken (5 < 10)
        0x00000093, // addi x1, x0, 0     (skipped)
        0x00100073, // ebreak
    ]);
    assert_eq!(cpu.regs.read(1), 5);

    let cpu2 = run(&[
        0x00A00093, // addi x1, x0, 10
        0x00500113, // addi x2, x0, 5
        0x0020D263, // bge x1, x2, +4     -> taken (10 >= 5)
        0x00000093, // addi x1, x0, 0     (skipped)
        0x00100073, // ebreak
    ]);
    assert_eq!(cpu2.regs.read(1), 10);
}

#[test]
fn backward_branch_loop() {
    // Sum 1..=5 using backward branch
    let cpu = run(&[
        0x00000093, // addi x1, x0, 0      (acc)
        0x00100113, // addi x2, x0, 1      (i)
        0x00600193, // addi x3, x0, 6      (bound)
        0x00310463, // beq  x2, x3, +8     (skip to ebreak)
        0x002080B3, // add  x1, x1, x2
        0x00110113, // addi x2, x2, 1
        0xFE000DE3, // beq  x0, x0, -6     (back to beq x2,x3)
        0x00100073, // ebreak
    ]);
    assert_eq!(cpu.regs.read(1), 15); // 1+2+3+4+5
}

// --- JAL / JALR ---

#[test]
fn jal_forward() {
    let cpu = run(&[
        0x008000EF, // jal x1, +8          (cell 0 -> cell 8)
        0x00000013, // nop                  (cell 2, skipped)
        0x00000013, // nop                  (cell 4, skipped)
        0x00000013, // nop                  (cell 6, skipped)
        0x00100073, // ebreak               (cell 8)
    ]);
    assert_eq!(cpu.regs.read(1), 2); // ra = cell 2
}

#[test]
fn jal_and_jalr() {
    let cpu = run(&[
        0x006000EF, // jal x1, +6          (cell 0 -> cell 6)
        0x06300193, // addi x3, x0, 99     (cell 2, executed on return)
        0x00100073, // ebreak               (cell 4)
        0x02A00113, // addi x2, x0, 42     (cell 6)
        0x000080E7, // jalr x1, x1, 0      (cell 8 -> cell 2, x1=10)
    ]);
    assert_eq!(cpu.regs.read(2), 42);
    assert_eq!(cpu.regs.read(3), 99);
}

// --- Load / Store ---

#[test]
fn lw_sw_word() {
    let cpu = run(&[
        0x06400093, // addi x1, x0, 100       (addr)
        0xDEADC137, // lui x2, 0xDEADC         -> 0xDEADC000
        0xEEF10113, // addi x2, x2, 0xEEF      -> 0xDEADBEEF
        0x0020A023, // sw x2, 0(x1)
        0x0000A183, // lw x3, 0(x1)
        0x00100073, // ebreak
    ]);
    assert_eq!(cpu.regs.read(2), 0xDEADBEEF);
    assert_eq!(cpu.regs.read(3), 0xDEADBEEF);
}

#[test]
fn lh_sign_extension() {
    let cpu = run(&[
        0x06400093, // addi x1, x0, 100
        0xFFF00113, // addi x2, x0, -1   (0xFFFFFFFF; low 16 = 0xFFFF)
        0x00209023, // sh x2, 0(x1)       (store cell: 0xFFFF)
        0x00009183, // lh x3, 0(x1)       (sign-extend: 0xFFFFFFFF)
        0x0000D203, // lhu x4, 0(x1)      (zero-extend: 0x0000FFFF)
        0x00100073, // ebreak
    ]);
    assert_eq!(cpu.regs.read(3), 0xFFFFFFFF); // sign-extended
    assert_eq!(cpu.regs.read(4), 0x0000FFFF); // zero-extended
}

#[test]
fn lb_sb_alias_to_cell() {
    let cpu = run(&[
        0x06400093, // addi x1, x0, 100
        0x04200113, // addi x2, x0, 0x42
        0x00208023, // sb x2, 0(x1)       (stores cell = 0x0042)
        0x00008183, // lb x3, 0(x1)       (loads cell, sign-extends)
        0x0000C203, // lbu x4, 0(x1)      (loads cell, zero-extends)
        0x00100073, // ebreak
    ]);
    assert_eq!(cpu.regs.read(3), 0x42);
    assert_eq!(cpu.regs.read(4), 0x42);
}

#[test]
fn store_load_with_offset() {
    let cpu = run(&[
        0x06400093, // addi x1, x0, 100
        0x00A00113, // addi x2, x0, 10
        0x01400193, // addi x3, x0, 20
        0x00209023, // sh x2, 0(x1)       (cell 100 = 10)
        0x003090A3, // sh x3, 1(x1)       (cell 101 = 20)
        0x00109203, // lh x4, 1(x1)       (load cell 101)
        0x00100073, // ebreak
    ]);
    assert_eq!(cpu.regs.read(4), 20);
}

// --- x0 register ---

#[test]
fn cpu_x0_always_zero() {
    let cpu = run(&[
        0x02A00013, // addi x0, x0, 42     (write to x0, should be discarded)
        0x00100073, // ebreak
    ]);
    assert_eq!(cpu.regs.read(0), 0);
}

// --- UART ---

#[test]
fn uart_captures_cells() {
    let cpu = run(&[
        0x10000137, // lui x2, 0x10000     (x2 = UART_BASE)
        0x04800093, // addi x1, x0, 0x48   ('H')
        0x00111023, // sh x1, 0(x2)
        0x06900093, // addi x1, x0, 0x69   ('i')
        0x00111023, // sh x1, 0(x2)
        0x00100073, // ebreak
    ]);
    assert_eq!(cpu.uart_output, &[0x48u16, 0x69u16]);
}

// --- PC increment ---

#[test]
fn pc_increments_by_2() {
    let mut cpu = Cpu::new(256);
    cpu.load_program(0, &[
        0x00000013, // nop
        0x00000013, // nop
        0x00100073, // ebreak
    ]);
    assert_eq!(cpu.pc, 0);
    cpu.step();
    assert_eq!(cpu.pc, 2);
    cpu.step();
    assert_eq!(cpu.pc, 4);
}

// --- ECALL ---

#[test]
fn ecall() {
    let mut cpu = Cpu::new(256);
    cpu.load_program(0, &[0x00000073]); // ecall
    assert!(matches!(cpu.step(), StepResult::Ecall));
}

// --- Load binary ---

#[test]
fn load_binary_packs_bytes() {
    let mut cpu = Cpu::new(256);
    let binary: [u8; 8] = [
        0x93, 0x00, 0xA0, 0x02, // addi x1, x0, 42 (LE)
        0x73, 0x00, 0x10, 0x00, // ebreak
    ];
    cpu.load_binary(0, &binary);
    // Cell 0 should be 0x0093, cell 1 should be 0x02A0
    assert_eq!(cpu.mem.load16(0), 0x0093);
    assert_eq!(cpu.mem.load16(1), 0x02A0);
    cpu.step();
    assert_eq!(cpu.regs.read(1), 42);
    assert!(matches!(cpu.step(), StepResult::Ebreak));
}

// --- further cases ---

#[test]
fn illegal_instruction_leaves_state() {
    let mut cpu = Cpu::new(64);
    cpu.load_program(0, &[0xFFFF_FFFF]);
    let r = cpu.step();
    assert!(matches!(r, StepResult::IllegalInstruction(0xFFFF_FFFF)));
    assert_eq!(cpu.pc, 0);
    assert_eq!(cpu.regs.dump(), &[0u32; 16]);
}

#[test]
fn ebreak_advances_pc() {
    let mut cpu = Cpu::new(64);
    cpu.load_program(4, &[0x00100073]);
    cpu.pc = 4;
    assert!(matches!(cpu.step(), StepResult::Ebreak));
    assert_eq!(cpu.pc, 6);
}

#[test]
fn sra_and_shift_amount_masked() {
    let cpu = run(&[
        0x80000137, // lui x2, 0x80000       (x2 = 0x80000000)
        0x02400193, // addi x3, x0, 36       (shift 36 -> 4)
        0x403152B3, // sra x5, x2, x3        -> 0xF8000000
        0x00315333, // srl x6, x2, x3        -> 0x08000000
        0x00100093, // addi x1, x0, 1
        0x003093B3, // sll x7, x1, x3        -> 0x10
        0x00100073, // ebreak
    ]);
    assert_eq!(cpu.regs.read(5), 0xF800_0000);
    assert_eq!(cpu.regs.read(6), 0x0800_0000);
    assert_eq!(cpu.regs.read(7), 0x10);
}

#[test]
fn add_wraps_and_sub_borrows() {
    let cpu = run(&[
        0xFFF00093, // addi x1, x0, -1      (0xFFFFFFFF)
        0x00100113, // addi x2, x0, 1
        0x002081B3, // add x3, x1, x2       -> 0
        0x40110233, // sub x4, x2, x1       -> 2
        0x00100073, // ebreak
    ]);
    assert_eq!(cpu.regs.read(3), 0);
    assert_eq!(cpu.regs.read(4), 2);
}

#[test]
fn jalr_clears_low_bit() {
    let cpu = run(&[
        0x00700093, // addi x1, x0, 7
        0x00008167, // jalr x2, x1, 0       -> target 6, x2 = 4
        0x00100073, // ebreak (cell 4, skipped)
        0x00100073, // ebreak (cell 6)
    ]);
    assert_eq!(cpu.regs.read(2), 4);
    assert_eq!(cpu.pc, 8);
}

#[test]
fn sw_stores_low_cell_first() {
    let cpu = run(&[
        0x06400093, // addi x1, x0, 100
        0x12345137, // lui x2, 0x12345
        0x67810113, // addi x2, x2, 0x678    -> 0x12345678
        0x0020A023, // sw x2, 0(x1)
        0x00100073, // ebreak
    ]);
    assert_eq!(cpu.mem.load16(100), 0x5678);
    assert_eq!(cpu.mem.load16(101), 0x1234);
}

#[test]
fn run_stops_at_ebreak_and_counts_steps() {
    let mut cpu = Cpu::new(64);
    cpu.load_program(0, &[0x00100093, 0x00100073]);
    let (exit, steps) = cpu.run(100);
    assert!(matches!(exit, RunExit::Stopped(StepResult::Ebreak)));
    assert_eq!(steps, 2);
    assert_eq!(cpu.regs.read(1), 1);
}

#[test]
fn run_reaches_step_limit() {
    let mut cpu = Cpu::new(64);
    // beq x0, x0, 0: loops forever
    cpu.load_program(0, &[0x00000063]);
    let (exit, steps) = cpu.run(7);
    assert!(matches!(exit, RunExit::StepLimit));
    assert_eq!(steps, 7);
    let (exit, steps) = cpu.run(0);
    assert!(matches!(exit, RunExit::StepLimit));
    assert_eq!(steps, 1);
}

#[test]
fn run_refuses_out_of_bounds_access() {
    let mut cpu = Cpu::new(16);
    // lw x1, 100(x0): cells 100 and 101 do not exist
    cpu.load_program(0, &[0x06402083]);
    assert!(!cpu.can_step());
    let (exit, steps) = cpu.run(10);
    assert!(matches!(exit, RunExit::OutOfBounds));
    assert_eq!(steps, 0);
    assert_eq!(cpu.pc, 0);
}

#[test]
fn can_step_sees_fetch_and_uart() {
    let mut cpu = Cpu::new(4);
    cpu.pc = 3;
    assert!(!cpu.can_step());
    cpu.pc = 0;
    // sh x1, 0(x2) with x2 = 0 stays in memory; UART store is always allowed
    cpu.load_program(0, &[0x00111023]);
    assert!(cpu.can_step());
    cpu.regs.write(2, 0x1000_0000);
    assert!(cpu.can_step());
    cpu.regs.write(2, 0x2000);
    assert!(!cpu.can_step());
}

#[test]
fn load_binary_odd_length_zero_fills_high_half() {
    let mut cpu = Cpu::new(8);
    cpu.load_binary(2, &[0x11, 0x22, 0x33]);
    assert_eq!(cpu.mem.load16(2), 0x2211);
    assert_eq!(cpu.mem.load16(3), 0x0033);
    assert_eq!(cpu.mem.load16(4), 0);
}

#[test]
fn load_program_places_words_at_base() {
    let mut cpu = Cpu::new(16);
    cpu.load_program(6, &[0xAABB_CCDD, 0x1122_3344]);
    assert_eq!(cpu.mem.load32(6), 0xAABB_CCDD);
    assert_eq!(cpu.mem.load32(8), 0x1122_3344);
    assert_eq!(cpu.mem.load16(6), 0xCCDD);
    assert_eq!(cpu.mem.load16(5), 0);
}

#[test]
fn uart_store_leaves_memory_and_size() {
    let cpu = run(&[
        0x10000137, // lui x2, 0x10000     (x2 = UART_BASE)
        0x04800093, // addi x1, x0, 0x48
        0x00111023, // sh x1, 0(x2)
        0x00100073, // ebreak
    ]);
    assert_eq!(cpu.uart_output, &[0x48u16]);
    assert_eq!(cpu.uart_bytes(), b"H".to_vec());
    assert_eq!(cpu.mem.len(), 1024);
    for a in 8..1024u32 {
        assert_eq!(cpu.mem.load16(a), 0);
    }
}

#[test]
fn uart_bytes_keep_low_eight_bits() {
    let mut cpu = Cpu::new(16);
    cpu.uart_output.push(0x1241);
    cpu.uart_output.push(0x0A);
    assert_eq!(cpu.uart_bytes(), vec![0x41, 0x0A]);
}

#[test]
fn lb_and_lh_agree_on_negative_cell() {
    let program = |load: u32| {
        run(&[
            0x06400093, // addi x1, x0, 100
            0x80000137, // lui x2, 0x80000
            0x00F16113, // ori x2, x2, 15      (0x8000000F; low cell 0x000F)
            0xFFF10113, // addi x2, x2, -1     (0x8000000E)
            0x00209023, // sh x2, 0(x1)
            load,       // lb or lh x3, 0(x1)
            0x00100073, // ebreak
        ])
    };
    let with_lb = program(0x00008183);
    let with_lh = program(0x00009183);
    assert_eq!(with_lb.regs.read(3), 0x0000000E);
    assert_eq!(with_lb.regs.read(3), with_lh.regs.read(3));

    let neg = run(&[
        0x06400093, // addi x1, x0, 100
        0xFFE00113, // addi x2, x0, -2      (low cell 0xFFFE)
        0x00208023, // sb x2, 0(x1)
        0x00008183, // lb x3, 0(x1)         -> 0xFFFFFFFE
        0x0000C203, // lbu x4, 0(x1)        -> 0x0000FFFE
        0x00100073, // ebreak
    ]);
    assert_eq!(neg.regs.read(3), 0xFFFF_FFFE);
    assert_eq!(neg.regs.read(4), 0x0000_FFFE);
}

#[test]
fn branch_backwards_below_zero_wraps() {
    let mut cpu = Cpu::new(16);
    // beq x0, x0, -6 at cell 0: target wraps to 0xFFFFFFFA
    cpu.load_program(0, &[0xFE000DE3]);
    assert!(matches!(cpu.step(), StepResult::Continue));
    assert_eq!(cpu.pc, 0xFFFF_FFFA);
    assert!(!cpu.can_step());
}

#[test]
fn auipc_adds_to_current_pc() {
    let mut cpu = Cpu::new(16);
    cpu.load_program(4, &[0x00001097]); // auipc x1, 1
    cpu.pc = 4;
    cpu.step();
    assert_eq!(cpu.regs.read(1), 0x1004);
    assert_eq!(cpu.pc, 6);
}

#[test]
fn new_machine_is_zeroed() {
    let cpu = Cpu::new(32);
    assert_eq!(cpu.pc, 0);
    assert_eq!(cpu.mem.len(), 32);
    assert_eq!(cpu.regs.dump(), &[0u32; 16]);
    assert!(cpu.uart_output.is_empty());
}
