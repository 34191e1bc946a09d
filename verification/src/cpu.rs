use crate::decode::{
    decode, lemma_decoded_offsets_even, lemma_decoded_operands_in_range, spec_decode, Instruction,
};
use crate::isa::{
    clear_low_bit, lemma_cell_sign_extend, lemma_wrap_even, lemma_i32_to_u32, lemma_masks, lemma_shift_amount_width,
    lemma_shift_left, lemma_shift_right_arith, lemma_shift_right_logical, lemma_u32_to_i32,
    lemma_wrapping_add, lemma_wrapping_add_signed, lemma_wrapping_sub, low_half, shift_left, shift_right_arith,
    shift_right_logical, sign_extend, signed, wrap,
};
use crate::memory::{cells_after_word_store, lemma_word_round_trip, overlay, word_at, Memory};
use crate::registers::{regs_after_write, RegisterFile, NUM_REGS};
use vstd::prelude::*;

verus! {

/// Cell address of the memory-mapped UART: a cell store there is captured as output.
pub const UART_BASE: u32 = 0x10000000;

/// What one step of execution ended with.
#[derive(Debug)]
pub enum StepResult {
    Continue,
    Ecall,
    Ebreak,
    IllegalInstruction(u32),
}

/// The whole machine state as a mathematical value.
pub struct MachineState {
    pub pc: u32,
    pub regs: Seq<u32>,
    pub mem: Seq<u16>,
    pub uart: Seq<u16>,
}

impl MachineState {
    pub open spec fn reg(self, r: u8) -> u32 {
        self.regs[r as int]
    }

    pub open spec fn with_pc(self, pc: u32) -> MachineState {
        MachineState { pc, regs: self.regs, mem: self.mem, uart: self.uart }
    }

    pub open spec fn with_reg(self, rd: u8, val: u32) -> MachineState {
        MachineState {
            pc: self.pc,
            regs: regs_after_write(self.regs, rd as int, val),
            mem: self.mem,
            uart: self.uart,
        }
    }

    pub open spec fn with_mem(self, mem: Seq<u16>) -> MachineState {
        MachineState { pc: self.pc, regs: self.regs, mem, uart: self.uart }
    }

    pub open spec fn with_uart(self, uart: Seq<u16>) -> MachineState {
        MachineState { pc: self.pc, regs: self.regs, mem: self.mem, uart }
    }

    /// Cell address `rs1 + imm`, modulo 2^32.
    pub open spec fn effective_addr(self, rs1: u8, imm: i32) -> u32 {
        wrap(self.reg(rs1) + imm)
    }

    /// The instruction word at the PC.
    pub open spec fn fetched(self) -> u32 {
        word_at(self.mem, self.pc as int)
    }

    /// Sixteen registers with `x0` zero.
    pub open spec fn regs_wf(self) -> bool {
        self.regs.len() == NUM_REGS && self.regs[0] == 0
    }
}

/// The PC moved to `target` when `taken`, else to the next instruction.
pub open spec fn branch_to(s: MachineState, taken: bool, imm: i32) -> (MachineState, StepResult) {
    if taken {
        (s.with_pc(wrap(s.pc + imm)), StepResult::Continue)
    } else {
        (s.with_pc(wrap(s.pc + 2)), StepResult::Continue)
    }
}

/// Writes `val` to `rd` and moves to the next instruction.
pub open spec fn write_and_continue(s: MachineState, rd: u8, val: u32) -> (MachineState, StepResult) {
    (s.with_reg(rd, val).with_pc(wrap(s.pc + 2)), StepResult::Continue)
}

pub open spec fn flag(b: bool) -> u32 {
    if b {
        1
    } else {
        0
    }
}

/// The state after a cell store of `val` at `addr`: captured by the UART at
/// `UART_BASE`, written to memory elsewhere.
pub open spec fn store_cell_spec(s: MachineState, addr: u32, val: u16) -> MachineState {
    if addr == UART_BASE {
        s.with_uart(s.uart.push(val))
    } else {
        s.with_mem(s.mem.update(addr as int, val))
    }
}

/// The state and result of executing the decoded instruction `inst` in state `s`.
/// Each instruction occupies two cells, so the next instruction is at `pc + 2`.
pub open spec fn execute(s: MachineState, inst: Instruction) -> (MachineState, StepResult) {
    let next = wrap(s.pc + 2);
    match inst {
        Instruction::Lui { rd, imm } => write_and_continue(s, rd, imm),
        Instruction::Auipc { rd, imm } => write_and_continue(s, rd, wrap(s.pc + imm)),
        Instruction::Jal { rd, imm } => (
            s.with_reg(rd, next).with_pc(wrap(s.pc + imm)),
            StepResult::Continue,
        ),
        Instruction::Jalr { rd, rs1, imm } => (
            s.with_reg(rd, next).with_pc(clear_low_bit(wrap(s.reg(rs1) + imm))),
            StepResult::Continue,
        ),
        Instruction::Beq { rs1, rs2, imm } => branch_to(s, s.reg(rs1) == s.reg(rs2), imm),
        Instruction::Bne { rs1, rs2, imm } => branch_to(s, s.reg(rs1) != s.reg(rs2), imm),
        Instruction::Blt { rs1, rs2, imm } => branch_to(
            s,
            signed(s.reg(rs1)) < signed(s.reg(rs2)),
            imm,
        ),
        Instruction::Bge { rs1, rs2, imm } => branch_to(
            s,
            signed(s.reg(rs1)) >= signed(s.reg(rs2)),
            imm,
        ),
        Instruction::Bltu { rs1, rs2, imm } => branch_to(s, s.reg(rs1) < s.reg(rs2), imm),
        Instruction::Bgeu { rs1, rs2, imm } => branch_to(s, s.reg(rs1) >= s.reg(rs2), imm),
        // load cell, sign-extended
        Instruction::Lb { rd, rs1, imm } => write_and_continue(
            s,
            rd,
            wrap(sign_extend(s.mem[s.effective_addr(rs1, imm) as int] as int, 0x8000)),
        ),
        Instruction::Lh { rd, rs1, imm } => write_and_continue(
            s,
            rd,
            wrap(sign_extend(s.mem[s.effective_addr(rs1, imm) as int] as int, 0x8000)),
        ),
        // load cell, zero-extended
        Instruction::Lbu { rd, rs1, imm } => write_and_continue(
            s,
            rd,
            s.mem[s.effective_addr(rs1, imm) as int] as u32,
        ),
        Instruction::Lhu { rd, rs1, imm } => write_and_continue(
            s,
            rd,
            s.mem[s.effective_addr(rs1, imm) as int] as u32,
        ),
        Instruction::Lw { rd, rs1, imm } => write_and_continue(
            s,
            rd,
            word_at(s.mem, s.effective_addr(rs1, imm) as int),
        ),
        // store cell: the low half of rs2
        Instruction::Sb { rs1, rs2, imm } => (
            store_cell_spec(s, s.effective_addr(rs1, imm), low_half(s.reg(rs2))).with_pc(next),
            StepResult::Continue,
        ),
        Instruction::Sh { rs1, rs2, imm } => (
            store_cell_spec(s, s.effective_addr(rs1, imm), low_half(s.reg(rs2))).with_pc(next),
            StepResult::Continue,
        ),
        Instruction::Sw { rs1, rs2, imm } => (
            s.with_mem(
                cells_after_word_store(s.mem, s.effective_addr(rs1, imm) as int, s.reg(rs2)),
            ).with_pc(next),
            StepResult::Continue,
        ),
        Instruction::Addi { rd, rs1, imm } => write_and_continue(s, rd, wrap(s.reg(rs1) + imm)),
        Instruction::Slti { rd, rs1, imm } => write_and_continue(
            s,
            rd,
            flag(signed(s.reg(rs1)) < imm),
        ),
        Instruction::Sltiu { rd, rs1, imm } => write_and_continue(
            s,
            rd,
            flag(s.reg(rs1) < wrap(imm as int)),
        ),
        Instruction::Xori { rd, rs1, imm } => write_and_continue(
            s,
            rd,
            s.reg(rs1) ^ wrap(imm as int),
        ),
        Instruction::Ori { rd, rs1, imm } => write_and_continue(
            s,
            rd,
            s.reg(rs1) | wrap(imm as int),
        ),
        Instruction::Andi { rd, rs1, imm } => write_and_continue(
            s,
            rd,
            s.reg(rs1) & wrap(imm as int),
        ),
        Instruction::Slli { rd, rs1, shamt } => write_and_continue(
            s,
            rd,
            shift_left(s.reg(rs1), shamt as nat),
        ),
        Instruction::Srli { rd, rs1, shamt } => write_and_continue(
            s,
            rd,
            shift_right_logical(s.reg(rs1), shamt as nat),
        ),
        Instruction::Srai { rd, rs1, shamt } => write_and_continue(
            s,
            rd,
            shift_right_arith(s.reg(rs1), shamt as nat),
        ),
        Instruction::Add { rd, rs1, rs2 } => write_and_continue(
            s,
            rd,
            wrap(s.reg(rs1) + s.reg(rs2)),
        ),
        Instruction::Sub { rd, rs1, rs2 } => write_and_continue(
            s,
            rd,
            wrap(s.reg(rs1) - s.reg(rs2)),
        ),
        Instruction::Sll { rd, rs1, rs2 } => write_and_continue(
            s,
            rd,
            shift_left(s.reg(rs1), (s.reg(rs2) % 32) as nat),
        ),
        Instruction::Slt { rd, rs1, rs2 } => write_and_continue(
            s,
            rd,
            flag(signed(s.reg(rs1)) < signed(s.reg(rs2))),
        ),
        Instruction::Sltu { rd, rs1, rs2 } => write_and_continue(
            s,
            rd,
            flag(s.reg(rs1) < s.reg(rs2)),
        ),
        Instruction::Xor { rd, rs1, rs2 } => write_and_continue(s, rd, s.reg(rs1) ^ s.reg(rs2)),
        Instruction::Srl { rd, rs1, rs2 } => write_and_continue(
            s,
            rd,
            shift_right_logical(s.reg(rs1), (s.reg(rs2) % 32) as nat),
        ),
        Instruction::Sra { rd, rs1, rs2 } => write_and_continue(
            s,
            rd,
            shift_right_arith(s.reg(rs1), (s.reg(rs2) % 32) as nat),
        ),
        Instruction::Or { rd, rs1, rs2 } => write_and_continue(s, rd, s.reg(rs1) | s.reg(rs2)),
        Instruction::And { rd, rs1, rs2 } => write_and_continue(s, rd, s.reg(rs1) & s.reg(rs2)),
        Instruction::Ecall => (s.with_pc(next), StepResult::Ecall),
        Instruction::Ebreak => (s.with_pc(next), StepResult::Ebreak),
    }
}

pub open spec fn is_control(inst: Instruction) -> bool {
    ||| inst is Lui
    ||| inst is Auipc
    ||| inst is Jal
    ||| inst is Jalr
    ||| inst is Beq
    ||| inst is Bne
    ||| inst is Blt
    ||| inst is Bge
    ||| inst is Bltu
    ||| inst is Bgeu
}

pub open spec fn is_load_store(inst: Instruction) -> bool {
    ||| inst is Lb
    ||| inst is Lh
    ||| inst is Lbu
    ||| inst is Lhu
    ||| inst is Lw
    ||| inst is Sb
    ||| inst is Sh
    ||| inst is Sw
}

pub open spec fn is_op_imm(inst: Instruction) -> bool {
    ||| inst is Addi
    ||| inst is Slti
    ||| inst is Sltiu
    ||| inst is Xori
    ||| inst is Ori
    ||| inst is Andi
    ||| inst is Slli
    ||| inst is Srli
    ||| inst is Srai
}

pub open spec fn is_op(inst: Instruction) -> bool {
    ||| inst is Add
    ||| inst is Sub
    ||| inst is Sll
    ||| inst is Slt
    ||| inst is Sltu
    ||| inst is Xor
    ||| inst is Srl
    ||| inst is Sra
    ||| inst is Or
    ||| inst is And
}

/// One fetch-decode-execute step: an undecodable word leaves the state unchanged.
pub open spec fn spec_step(s: MachineState) -> (MachineState, StepResult) {
    match spec_decode(s.fetched()) {
        Some(inst) => execute(s, inst),
        None => (s, StepResult::IllegalInstruction(s.fetched())),
    }
}

/// Every memory cell that `inst` reads or writes in state `s` exists.
pub open spec fn access_in_bounds(s: MachineState, inst: Instruction) -> bool {
    match inst {
        Instruction::Lb { rs1, imm, .. } => s.effective_addr(rs1, imm) < s.mem.len(),
        Instruction::Lh { rs1, imm, .. } => s.effective_addr(rs1, imm) < s.mem.len(),
        Instruction::Lbu { rs1, imm, .. } => s.effective_addr(rs1, imm) < s.mem.len(),
        Instruction::Lhu { rs1, imm, .. } => s.effective_addr(rs1, imm) < s.mem.len(),
        Instruction::Lw { rs1, imm, .. } => s.effective_addr(rs1, imm) + 1 < s.mem.len(),
        Instruction::Sb { rs1, imm, .. } => s.effective_addr(rs1, imm) == UART_BASE
            || s.effective_addr(rs1, imm) < s.mem.len(),
        Instruction::Sh { rs1, imm, .. } => s.effective_addr(rs1, imm) == UART_BASE
            || s.effective_addr(rs1, imm) < s.mem.len(),
        Instruction::Sw { rs1, imm, .. } => s.effective_addr(rs1, imm) + 1 < s.mem.len(),
        _ => true,
    }
}

/// The step from `s` touches only cells that exist: the two cells of the
/// instruction and those of its load or store.
pub open spec fn step_in_bounds(s: MachineState) -> bool {
    &&& s.pc + 1 < s.mem.len()
    &&& match spec_decode(s.fetched()) {
        Some(inst) => access_in_bounds(s, inst),
        None => true,
    }
}

/// 32-bit words as cells, two per word, low half first.
pub open spec fn words_to_cells(words: Seq<u32>) -> Seq<u16> {
    Seq::new(
        2 * words.len(),
        |j: int|
            if j % 2 == 0 {
                (words[j / 2] % 0x1_0000) as u16
            } else {
                (words[j / 2] / 0x1_0000) as u16
            },
    )
}

/// Bytes packed into cells, two per cell, the first byte in the low half; a
/// last odd byte fills a cell whose high half is zero.
pub open spec fn bytes_to_cells(bytes: Seq<u8>) -> Seq<u16> {
    Seq::new(
        ((bytes.len() + 1) / 2) as nat,
        |k: int|
            (bytes[2 * k] + 0x100 * (if 2 * k + 1 < bytes.len() {
                bytes[2 * k + 1] as int
            } else {
                0
            })) as u16,
    )
}

/// How a run of at most `max_steps` steps ended.
#[derive(Debug)]
pub enum RunExit {
    /// A step ended with something other than `Continue`.
    Stopped(StepResult),
    /// The step limit was reached with the machine still running.
    StepLimit,
    /// The next step would touch a cell that does not exist.
    OutOfBounds,
}

/// Stepping from `s`, `steps` steps already done: stop at the first step that does
/// not continue, or when `max_steps` steps are done, or before a step that would
/// leave memory. Gives the final state, how the run ended, and the steps done.
pub open spec fn spec_run(s: MachineState, steps: nat, max_steps: nat) -> (MachineState, RunExit, nat)
    decreases max_steps - steps,
{
    if !step_in_bounds(s) {
        (s, RunExit::OutOfBounds, steps)
    } else {
        let (next, r) = spec_step(s);
        if !(r is Continue) {
            (next, RunExit::Stopped(r), steps + 1)
        } else if steps + 1 >= max_steps {
            (next, RunExit::StepLimit, steps + 1)
        } else {
            spec_run(next, steps + 1, max_steps)
        }
    }
}

/// x0 is hardwired to zero: a step from a state whose sixteen registers have x0
/// zero reaches such a state again.
pub proof fn lemma_step_keeps_x0_zero(s: MachineState)
    requires
        s.regs_wf(),
    ensures
        spec_step(s).0.regs_wf(),
{
    lemma_decoded_operands_in_range(s.fetched());
}

/// The PC stays at whole instructions: from an even PC, every step (sequential,
/// jump, taken branch, or an undecodable word) leaves the PC even.
pub proof fn lemma_step_keeps_pc_even(s: MachineState)
    requires
        s.pc % 2 == 0,
    ensures
        spec_step(s).0.pc % 2 == 0,
{
    lemma_decoded_offsets_even(s.fetched());
    if let Some(inst) = spec_decode(s.fetched()) {
        if is_control(inst) {
            match inst {
                Instruction::Jalr { rs1, imm, .. } => {
                    lemma_masks(wrap(s.reg(rs1) + imm));
                },
                Instruction::Lui { .. } | Instruction::Auipc { .. } => {
                    lemma_wrap_even(s.pc + 2);
                },
                Instruction::Jal { imm, .. } => {
                    lemma_wrap_even(s.pc + imm);
                },
                Instruction::Beq { imm, .. }
                | Instruction::Bne { imm, .. }
                | Instruction::Blt { imm, .. }
                | Instruction::Bge { imm, .. }
                | Instruction::Bltu { imm, .. }
                | Instruction::Bgeu { imm, .. } => {
                    lemma_wrap_even(s.pc + imm);
                    lemma_wrap_even(s.pc + 2);
                },
                _ => {},
            }
        } else {
            lemma_sequential_pc(s);
            lemma_wrap_even(s.pc + 2);
        }
    }
}

/// A step within memory never changes the number of memory cells.
pub proof fn lemma_step_keeps_memory_size(s: MachineState)
    requires
        step_in_bounds(s),
    ensures
        spec_step(s).0.mem.len() == s.mem.len(),
{
    if let Some(inst) = spec_decode(s.fetched()) {
        if is_load_store(inst) {
            match inst {
                Instruction::Sw { rs1, rs2, imm } => {
                    let a = s.effective_addr(rs1, imm) as int;
                    assert(cells_after_word_store(s.mem, a, s.reg(rs2)).len() == s.mem.len());
                },
                _ => {},
            }
        } else {
            assert(execute(s, inst).0.mem == s.mem);
        }
    }
}

/// An instruction that is neither a jump nor a branch moves the PC on by one
/// instruction, 2 cells.
pub proof fn lemma_sequential_pc(s: MachineState)
    requires
        spec_decode(s.fetched()) matches Some(inst) && !(inst is Jal || inst is Jalr || inst is Beq
            || inst is Bne || inst is Blt || inst is Bge || inst is Bltu || inst is Bgeu),
    ensures
        spec_step(s).0.pc == wrap(s.pc + 2),
{
}

/// A word that encodes no instruction stops the machine where it is: the step
/// reports it and changes nothing.
pub proof fn lemma_illegal_changes_nothing(s: MachineState)
    requires
        spec_decode(s.fetched()) is None,
    ensures
        spec_step(s) == (s, StepResult::IllegalInstruction(s.fetched())),
{
}

/// The UART output only grows, by at most one cell per step, and a cell reaches
/// it exactly when a cell store targets `UART_BASE`; such a store leaves memory
/// unchanged.
pub proof fn lemma_uart_appends(s: MachineState)
    ensures
        spec_step(s).0.uart == s.uart || spec_step(s).0.uart == s.uart.push(
            spec_step(s).0.uart.last(),
        ),
        spec_step(s).0.uart != s.uart ==> spec_step(s).0.mem == s.mem,
        spec_decode(s.fetched()) matches Some(Instruction::Sb { rs1, rs2, imm }) ==> (spec_step(
            s,
        ).0.uart == s.uart.push(low_half(s.reg(rs2))) <==> s.effective_addr(rs1, imm) == UART_BASE),
        spec_decode(s.fetched()) matches Some(Instruction::Sh { rs1, rs2, imm }) ==> (spec_step(
            s,
        ).0.uart == s.uart.push(low_half(s.reg(rs2))) <==> s.effective_addr(rs1, imm) == UART_BASE),
{
    if let Some(inst) = spec_decode(s.fetched()) {
        match inst {
            Instruction::Sb { rs1, rs2, imm } | Instruction::Sh { rs1, rs2, imm } => {
                if s.effective_addr(rs1, imm) != UART_BASE {
                    assert(spec_step(s).0.uart.len() == s.uart.len());
                }
            },
            _ => {},
        }
    }
}

/// LB and LH are the same instruction here (load a cell, sign-extended), and so are
/// LBU and LHU (zero-extended), and SB and SH (store a cell).
pub proof fn lemma_cell_access_aliases(s: MachineState, r: u8, rs1: u8, imm: i32)
    ensures
        execute(s, Instruction::Lb { rd: r, rs1, imm }) == execute(
            s,
            Instruction::Lh { rd: r, rs1, imm },
        ),
        execute(s, Instruction::Lbu { rd: r, rs1, imm }) == execute(
            s,
            Instruction::Lhu { rd: r, rs1, imm },
        ),
        execute(s, Instruction::Sb { rs1, rs2: r, imm }) == execute(
            s,
            Instruction::Sh { rs1, rs2: r, imm },
        ),
{
}

/// A word loaded from where a word was just stored is the stored word, and each
/// of its cells is the matching half (low half at the lower address).
pub proof fn lemma_word_store_then_load(
    s: MachineState,
    rs1: u8,
    rs2: u8,
    imm: i32,
    rd: u8,
    rs1_load: u8,
    imm_load: i32,
)
    requires
        s.effective_addr(rs1, imm) + 1 < s.mem.len(),
        execute(s, Instruction::Sw { rs1, rs2, imm }).0.effective_addr(rs1_load, imm_load)
            == s.effective_addr(rs1, imm),
        s.regs.len() == NUM_REGS,
        rd != 0,
        rd < NUM_REGS,
    ensures
        ({
            let t = execute(s, Instruction::Sw { rs1, rs2, imm }).0;
            &&& execute(t, Instruction::Lw { rd, rs1: rs1_load, imm: imm_load }).0.reg(rd) == s.reg(
                rs2,
            )
            &&& execute(t, Instruction::Lhu { rd, rs1: rs1_load, imm: imm_load }).0.reg(rd)
                == s.reg(rs2) % 0x1_0000
        }),
{
    let a = s.effective_addr(rs1, imm) as int;
    lemma_word_round_trip(s.mem, a, s.reg(rs2));
}

/// A cell loaded, zero-extended, from where a cell was just stored is the low half
/// of the stored register.
pub proof fn lemma_cell_store_then_load(
    s: MachineState,
    rs1: u8,
    rs2: u8,
    imm: i32,
    rd: u8,
    rs1_load: u8,
    imm_load: i32,
)
    requires
        s.effective_addr(rs1, imm) < s.mem.len(),
        s.effective_addr(rs1, imm) != UART_BASE,
        execute(s, Instruction::Sh { rs1, rs2, imm }).0.effective_addr(rs1_load, imm_load)
            == s.effective_addr(rs1, imm),
        s.regs.len() == NUM_REGS,
        rd != 0,
        rd < NUM_REGS,
    ensures
        ({
            let t = execute(s, Instruction::Sh { rs1, rs2, imm }).0;
            execute(t, Instruction::Lhu { rd, rs1: rs1_load, imm: imm_load }).0.reg(rd) == s.reg(rs2)
                % 0x1_0000
        }),
{
}

/// After `load_program`, instruction `k` of the program is fetched from cell
/// `base + 2k`.
pub proof fn lemma_loaded_program_fetch(mem: Seq<u16>, base: int, program: Seq<u32>, k: int)
    requires
        0 <= base,
        base + 2 * program.len() <= mem.len(),
        0 <= k < program.len(),
    ensures
        word_at(overlay(mem, base, words_to_cells(program)), base + 2 * k) == program[k],
{
    let cells = overlay(mem, base, words_to_cells(program));
    let w = program[k];
    assert(cells[base + 2 * k] == (w % 0x1_0000) as u16);
    assert(cells[base + 2 * k + 1] == (w / 0x1_0000) as u16);
    assert((w % 0x1_0000) + (w / 0x1_0000) * 0x1_0000 == w) by (nonlinear_arith);
}

/// After `load_binary` of a flat binary, the instruction word fetched from cell
/// `base + 2k` is bytes `4k` to `4k + 3` of the binary, little-endian.
pub proof fn lemma_loaded_binary_fetch(mem: Seq<u16>, base: int, bytes: Seq<u8>, k: int)
    requires
        0 <= base,
        base + (bytes.len() + 1) / 2 <= mem.len(),
        0 <= k,
        4 * k + 3 < bytes.len(),
    ensures
        word_at(overlay(mem, base, bytes_to_cells(bytes)), base + 2 * k) == bytes[4 * k] + 0x100
            * bytes[4 * k + 1] + 0x1_0000 * bytes[4 * k + 2] + 0x100_0000 * bytes[4 * k + 3],
{
    let cells = overlay(mem, base, bytes_to_cells(bytes));
    assert(cells[base + 2 * k] == bytes[4 * k] + 0x100 * bytes[4 * k + 1]);
    assert(cells[base + 2 * k + 1] == bytes[4 * k + 2] + 0x100 * bytes[4 * k + 3]);
}

/// A run ends at the first step that does not continue: from a state whose step
/// reports ECALL, EBREAK or an illegal instruction, the run is that one step,
/// stopped with that step's result; a step that continues is followed by the
/// rest of the run until the limit.
pub proof fn lemma_run_stops_at_first_halt(s: MachineState, steps: nat, max_steps: nat)
    requires
        step_in_bounds(s),
    ensures
        !(spec_step(s).1 is Continue) ==> spec_run(s, steps, max_steps) == (
            spec_step(s).0,
            RunExit::Stopped(spec_step(s).1),
            steps + 1,
        ),
        spec_step(s).1 is Continue && steps + 1 < max_steps ==> spec_run(s, steps, max_steps)
            == spec_run(spec_step(s).0, steps + 1, max_steps),
        spec_step(s).1 is Continue && steps + 1 >= max_steps ==> spec_run(s, steps, max_steps) == (
            spec_step(s).0,
            RunExit::StepLimit,
            steps + 1,
        ),
{
}

/// A run never reports a step that continues as the reason it stopped, and it
/// never does more steps than the limit (at least one is attempted).
pub proof fn lemma_run_exit_shape(s: MachineState, steps: nat, max_steps: nat)
    requires
        steps < max_steps || steps == 0,
    ensures
        spec_run(s, steps, max_steps).1 matches RunExit::Stopped(r) ==> !(r is Continue),
        spec_run(s, steps, max_steps).2 <= if max_steps == 0 { 1 } else { max_steps },
        spec_run(s, steps, max_steps).2 >= steps,
    decreases max_steps - steps,
{
    if step_in_bounds(s) {
        let (next, r) = spec_step(s);
        if r is Continue && steps + 1 < max_steps {
            lemma_run_exit_shape(next, steps + 1, max_steps);
        }
    }
}

/// An RV32E-16B hart with its memory and the cells written to its UART.
pub struct Cpu {
    pub pc: u32,
    pub regs: RegisterFile,
    pub mem: Memory,
    /// Raw 16-bit cell values written to the UART.
    pub uart_output: Vec<u16>,
}

impl View for Cpu {
    type V = MachineState;

    open spec fn view(&self) -> MachineState {
        MachineState { pc: self.pc, regs: self.regs@, mem: self.mem@, uart: self.uart_output@ }
    }
}

impl Cpu {
    /// A machine with `mem_cells` zeroed cells, zeroed registers, PC 0 and no UART output.
    pub fn new(mem_cells: usize) -> (cpu: Self)
        ensures
            cpu@.pc == 0,
            cpu@.regs == Seq::new(NUM_REGS as nat, |i: int| 0u32),
            cpu@.mem == Seq::new(mem_cells as nat, |i: int| 0u16),
            cpu@.uart == Seq::<u16>::empty(),
    {
        Self {
            pc: 0,
            regs: RegisterFile::new(),
            mem: Memory::new(mem_cells),
            uart_output: Vec::new(),
        }
    }

    /// Load 32-bit instruction words. `base_addr` is a cell address.
    pub fn load_program(&mut self, base_addr: u32, program: &[u32])
        requires
            base_addr + 2 * program.len() <= old(self)@.mem.len(),
            base_addr + 2 * program.len() <= 0x1_0000_0000,
        ensures
            final(self)@ == old(self)@.with_mem(
                overlay(old(self)@.mem, base_addr as int, words_to_cells(program@)),
            ),
    {
        let ghost old_mem = self@.mem;
        let mut i: usize = 0;
        while i < program.len()
            invariant
                i <= program.len(),
                base_addr + 2 * program.len() <= old_mem.len(),
                base_addr + 2 * program.len() <= 0x1_0000_0000,
                self@ == old(self)@.with_mem(self@.mem),
                self@.mem == overlay(old_mem, base_addr as int, words_to_cells(program@.take(i as int))),
                old_mem == old(self)@.mem,
            decreases program.len() - i,
        {
            let addr = base_addr + (i as u32) * 2;
            let inst = program[i];
            self.mem.store32(addr, inst);
            proof {
                let done = words_to_cells(program@.take(i as int + 1));
                assert(self@.mem =~= overlay(old_mem, base_addr as int, done)) by {
                    assert forall|j: int| 0 <= j < done.len() implies done[j] == if j < 2 * i {
                        words_to_cells(program@.take(i as int))[j]
                    } else if j == 2 * i {
                        (inst % 0x1_0000) as u16
                    } else {
                        (inst / 0x1_0000) as u16
                    } by {
                        assert(j / 2 < i ==> program@.take(i as int + 1)[j / 2] == program@.take(i as int)[j / 2]);
                    }
                }
            }
            i = i + 1;
        }
        assert(program@.take(program.len() as int) =~= program@);
    }

    /// Load raw bytes (e.g. a flat binary) into memory at `base_addr` (cell address).
    /// Packs pairs of bytes into 16-bit cells.
    pub fn load_binary(&mut self, base_addr: u32, data: &[u8])
        requires
            base_addr + (data.len() + 1) / 2 <= old(self)@.mem.len(),
            base_addr + (data.len() + 1) / 2 <= 0x1_0000_0000,
        ensures
            final(self)@ == old(self)@.with_mem(
                overlay(old(self)@.mem, base_addr as int, bytes_to_cells(data@)),
            ),
    {
        let ghost old_mem = self@.mem;
        let ghost all = bytes_to_cells(data@);
        let n_cells = data.len() / 2 + data.len() % 2;
        let mut k: usize = 0;
        while k < n_cells
            invariant
                n_cells == (data.len() + 1) / 2,
                k <= n_cells,
                base_addr + n_cells <= old_mem.len(),
                base_addr + n_cells <= 0x1_0000_0000,
                all == bytes_to_cells(data@),
                self@ == old(self)@.with_mem(self@.mem),
                self@.mem == overlay(old_mem, base_addr as int, all.take(k as int)),
                old_mem == old(self)@.mem,
            decreases n_cells - k,
        {
            let i = 2 * k;
            let lo = data[i] as u16;
            let hi = if i + 1 < data.len() {
                data[i + 1] as u16
            } else {
                0
            };
            proof {
                lemma_pack_bytes(lo, hi);
            }
            let cell = lo | (hi << 8);
            self.mem.store16(base_addr + k as u32, cell);
            proof {
                assert(all[k as int] == cell);
                assert(all.take(k as int + 1) =~= all.take(k as int).push(cell));
                assert(self@.mem =~= overlay(old_mem, base_addr as int, all.take(k as int + 1)));
            }
            k = k + 1;
        }
        assert(all.take(k as int) =~= all);
    }

    /// Whether the next step touches only cells that exist, i.e. whether `step`
    /// may be called.
    pub fn can_step(&self) -> (ok: bool)
        ensures
            ok == step_in_bounds(self@),
    {
        let n = self.mem.len();
        if !two_cells_exist(self.pc, n) {
            return false;
        }
        let raw = self.fetch();
        proof {
            lemma_decoded_operands_in_range(raw);
        }
        match decode(raw) {
            None => true,
            Some(inst) => match inst {
                Instruction::Lb { rs1, imm, .. }
                | Instruction::Lh { rs1, imm, .. }
                | Instruction::Lbu { rs1, imm, .. }
                | Instruction::Lhu { rs1, imm, .. } => (self.addr(rs1, imm) as usize) < n,
                Instruction::Lw { rs1, imm, .. } | Instruction::Sw { rs1, imm, .. } => {
                    two_cells_exist(self.addr(rs1, imm), n)
                },
                Instruction::Sb { rs1, imm, .. } | Instruction::Sh { rs1, imm, .. } => {
                    let a = self.addr(rs1, imm);
                    a == UART_BASE || (a as usize) < n
                },
                _ => true,
            },
        }
    }

    /// Steps until a step ends with something other than `Continue`, or
    /// `max_steps` steps are done, or the next step would touch a cell that does not
    /// exist. At least one step is attempted. Gives how the run ended and the
    /// number of steps done.
    pub fn run(&mut self, max_steps: u64) -> (r: (RunExit, u64))
        ensures
            (final(self)@, r.0, r.1 as nat) == spec_run(old(self)@, 0, max_steps as nat),
    {
        let mut steps: u64 = 0;
        loop
            invariant
                steps == 0 || steps < max_steps,
                spec_run(self@, steps as nat, max_steps as nat) == spec_run(
                    old(self)@,
                    0,
                    max_steps as nat,
                ),
            decreases max_steps + 1 - steps,
        {
            if !self.can_step() {
                return (RunExit::OutOfBounds, steps);
            }
            let result = self.step();
            steps = steps + 1;
            match result {
                StepResult::Continue => {},
                other => {
                    return (RunExit::Stopped(other), steps);
                },
            }
            if steps >= max_steps {
                return (RunExit::StepLimit, steps);
            }
        }
    }

    /// The UART output as bytes: the low 8 bits of each cell written to the UART.
    pub fn uart_bytes(&self) -> (bytes: Vec<u8>)
        ensures
            bytes@ == self@.uart.map_values(|c: u16| (c % 0x100) as u8),
    {
        let mut bytes: Vec<u8> = Vec::new();
        let mut i: usize = 0;
        while i < self.uart_output.len()
            invariant
                i <= self.uart_output@.len(),
                bytes@ == self.uart_output@.take(i as int).map_values(|c: u16| (c % 0x100) as u8),
            decreases self.uart_output.len() - i,
        {
            let c = self.uart_output[i];
            proof {
                lemma_low_byte(c);
            }
            bytes.push(c as u8);
            proof {
                assert(self.uart_output@.take(i as int + 1).map_values(|c: u16| (c % 0x100) as u8)
                    =~= bytes@);
            }
            i = i + 1;
        }
        assert(self.uart_output@.take(i as int) =~= self.uart_output@);
        bytes
    }

    /// Fetch: PC is a cell address.
    fn fetch(&self) -> (inst: u32)
        requires
            self@.pc + 1 < self@.mem.len(),
        ensures
            inst == self@.fetched(),
    {
        self.mem.load32(self.pc)
    }

    /// Effective cell address for all loads/stores.
    fn addr(&self, rs1: u8, imm: i32) -> (a: u32)
        requires
            rs1 < NUM_REGS,
        ensures
            a == self@.effective_addr(rs1, imm),
    {
        let base = self.regs.read(rs1);
        proof {
            lemma_wrapping_add_signed(base, imm);
        }
        base.wrapping_add(imm as u32)
    }

    /// Executes the instruction at the PC: decodes the word there, applies it to
    /// registers, memory and UART, and advances the PC (by 2 cells unless a jump or
    /// a taken branch sets it). An undecodable word leaves the machine unchanged.
    pub fn step(&mut self) -> (r: StepResult)
        requires
            step_in_bounds(old(self)@),
        ensures
            (final(self)@, r) == spec_step(old(self)@),
    {
        let raw = self.fetch();
        let inst = match decode(raw) {
            Some(i) => i,
            None => return StepResult::IllegalInstruction(raw),
        };
        proof {
            lemma_decoded_operands_in_range(raw);
        }
        match inst {
            Instruction::Ecall => {
                proof {
                    lemma_wrapping_add(self.pc, 2);
                }
                self.pc = self.pc.wrapping_add(2);
                StepResult::Ecall
            },
            Instruction::Ebreak => {
                proof {
                    lemma_wrapping_add(self.pc, 2);
                }
                self.pc = self.pc.wrapping_add(2);
                StepResult::Ebreak
            },
            Instruction::Lui { .. }
            | Instruction::Auipc { .. }
            | Instruction::Jal { .. }
            | Instruction::Jalr { .. }
            | Instruction::Beq { .. }
            | Instruction::Bne { .. }
            | Instruction::Blt { .. }
            | Instruction::Bge { .. }
            | Instruction::Bltu { .. }
            | Instruction::Bgeu { .. } => {
                self.execute_control(inst);
                StepResult::Continue
            },
            Instruction::Lb { .. }
            | Instruction::Lh { .. }
            | Instruction::Lbu { .. }
            | Instruction::Lhu { .. }
            | Instruction::Lw { .. }
            | Instruction::Sb { .. }
            | Instruction::Sh { .. }
            | Instruction::Sw { .. } => {
                self.execute_load_store(inst);
                StepResult::Continue
            },
            Instruction::Addi { .. }
            | Instruction::Slti { .. }
            | Instruction::Sltiu { .. }
            | Instruction::Xori { .. }
            | Instruction::Ori { .. }
            | Instruction::Andi { .. }
            | Instruction::Slli { .. }
            | Instruction::Srli { .. }
            | Instruction::Srai { .. } => {
                self.execute_op_imm(inst);
                StepResult::Continue
            },
            _ => {
                self.execute_op(inst);
                StepResult::Continue
            },
        }
    }

    /// Upper-immediate, jump and branch instructions.
    fn execute_control(&mut self, inst: Instruction)
        requires
            is_control(inst),
            inst.operands_in_range(),
            access_in_bounds(old(self)@, inst),
        ensures
            (final(self)@, StepResult::Continue) == execute(old(self)@, inst),
    {
        // Each 32-bit instruction = 2 cells
        let mut next_pc = self.pc.wrapping_add(2);
        proof {
            lemma_wrapping_add(self.pc, 2);
        }
        match inst {
            Instruction::Lui { rd, imm } => {
                self.regs.write(rd, imm);
            },
            Instruction::Auipc { rd, imm } => {
                proof {
                    lemma_wrapping_add(self.pc, imm);
                }
                self.regs.write(rd, self.pc.wrapping_add(imm));
            },
            Instruction::Jal { rd, imm } => {
                self.regs.write(rd, next_pc);
                proof {
                    lemma_wrapping_add_signed(self.pc, imm);
                }
                next_pc = self.pc.wrapping_add(imm as u32);
            },
            Instruction::Jalr { rd, rs1, imm } => {
                let base = self.regs.read(rs1);
                proof {
                    lemma_wrapping_add_signed(base, imm);
                    lemma_masks(base.wrapping_add(imm as u32));
                }
                let target = base.wrapping_add(imm as u32) & !1;
                self.regs.write(rd, next_pc);
                next_pc = target;
            },
            Instruction::Beq { rs1, rs2, imm } => {
                proof {
                    lemma_wrapping_add_signed(self.pc, imm);
                }
                if self.regs.read(rs1) == self.regs.read(rs2) {
                    next_pc = self.pc.wrapping_add(imm as u32);
                }
            },
            Instruction::Bne { rs1, rs2, imm } => {
                proof {
                    lemma_wrapping_add_signed(self.pc, imm);
                }
                if self.regs.read(rs1) != self.regs.read(rs2) {
                    next_pc = self.pc.wrapping_add(imm as u32);
                }
            },
            Instruction::Blt { rs1, rs2, imm } => {
                let a = self.regs.read(rs1);
                let b = self.regs.read(rs2);
                proof {
                    lemma_wrapping_add_signed(self.pc, imm);
                    lemma_u32_to_i32(a);
                    lemma_u32_to_i32(b);
                }
                if (a as i32) < (b as i32) {
                    next_pc = self.pc.wrapping_add(imm as u32);
                }
            },
            Instruction::Bge { rs1, rs2, imm } => {
                let a = self.regs.read(rs1);
                let b = self.regs.read(rs2);
                proof {
                    lemma_wrapping_add_signed(self.pc, imm);
                    lemma_u32_to_i32(a);
                    lemma_u32_to_i32(b);
                }
                if (a as i32) >= (b as i32) {
                    next_pc = self.pc.wrapping_add(imm as u32);
                }
            },
            Instruction::Bltu { rs1, rs2, imm } => {
                proof {
                    lemma_wrapping_add_signed(self.pc, imm);
                }
                if self.regs.read(rs1) < self.regs.read(rs2) {
                    next_pc = self.pc.wrapping_add(imm as u32);
                }
            },
            Instruction::Bgeu { rs1, rs2, imm } => {
                proof {
                    lemma_wrapping_add_signed(self.pc, imm);
                }
                if self.regs.read(rs1) >= self.regs.read(rs2) {
                    next_pc = self.pc.wrapping_add(imm as u32);
                }
            },
            _ => {},
        }
        self.pc = next_pc;
    }

    /// Loads and stores.
    fn execute_load_store(&mut self, inst: Instruction)
        requires
            is_load_store(inst),
            inst.operands_in_range(),
            access_in_bounds(old(self)@, inst),
        ensures
            (final(self)@, StepResult::Continue) == execute(old(self)@, inst),
    {
        // Each 32-bit instruction = 2 cells
        let mut next_pc = self.pc.wrapping_add(2);
        proof {
            lemma_wrapping_add(self.pc, 2);
        }
        match inst {
            // LC: Load Cell (sign-extended). Replaces LB and LH — both load one cell.
            Instruction::Lb { rd, rs1, imm } | Instruction::Lh { rd, rs1, imm } => {
                let cell = self.mem.load16(self.addr(rs1, imm));
                proof {
                    lemma_cell_sign_extend(cell);
                }
                let val = cell as i16 as i32 as u32;
                self.regs.write(rd, val);
            },
            // LCU: Load Cell Unsigned. Replaces LBU and LHU.
            Instruction::Lbu { rd, rs1, imm } | Instruction::Lhu { rd, rs1, imm } => {
                let val = self.mem.load16(self.addr(rs1, imm)) as u32;
                self.regs.write(rd, val);
            },
            Instruction::Lw { rd, rs1, imm } => {
                let val = self.mem.load32(self.addr(rs1, imm));
                self.regs.write(rd, val);
            },
            // SC: Store Cell. Replaces SB and SH — both store one cell.
            Instruction::Sb { rs1, rs2, imm } | Instruction::Sh { rs1, rs2, imm } => {
                let src = self.regs.read(rs2);
                proof {
                    lemma_masks(src);
                }
                let val = src as u16;
                let a = self.addr(rs1, imm);
                self.store_cell(a, val);
            },
            Instruction::Sw { rs1, rs2, imm } => {
                let val = self.regs.read(rs2);
                let a = self.addr(rs1, imm);
                self.mem.store32(a, val);
            },
            _ => {},
        }
        self.pc = next_pc;
    }

    /// Register-immediate ALU instructions.
    fn execute_op_imm(&mut self, inst: Instruction)
        requires
            is_op_imm(inst),
            inst.operands_in_range(),
            access_in_bounds(old(self)@, inst),
        ensures
            (final(self)@, StepResult::Continue) == execute(old(self)@, inst),
    {
        // Each 32-bit instruction = 2 cells
        let mut next_pc = self.pc.wrapping_add(2);
        proof {
            lemma_wrapping_add(self.pc, 2);
        }
        match inst {
            Instruction::Addi { rd, rs1, imm } => {
                let a = self.regs.read(rs1);
                proof {
                    lemma_wrapping_add_signed(a, imm);
                }
                self.regs.write(rd, a.wrapping_add(imm as u32));
            },
            Instruction::Slti { rd, rs1, imm } => {
                let a = self.regs.read(rs1);
                proof {
                    lemma_u32_to_i32(a);
                }
                let val = if (a as i32) < imm {
                    1
                } else {
                    0
                };
                self.regs.write(rd, val);
            },
            Instruction::Sltiu { rd, rs1, imm } => {
                let a = self.regs.read(rs1);
                proof {
                    lemma_i32_to_u32(imm);
                }
                let val = if a < (imm as u32) {
                    1
                } else {
                    0
                };
                self.regs.write(rd, val);
            },
            Instruction::Xori { rd, rs1, imm } => {
                let a = self.regs.read(rs1);
                proof {
                    lemma_i32_to_u32(imm);
                }
                self.regs.write(rd, a ^ imm as u32);
            },
            Instruction::Ori { rd, rs1, imm } => {
                let a = self.regs.read(rs1);
                proof {
                    lemma_i32_to_u32(imm);
                }
                self.regs.write(rd, a | imm as u32);
            },
            Instruction::Andi { rd, rs1, imm } => {
                let a = self.regs.read(rs1);
                proof {
                    lemma_i32_to_u32(imm);
                }
                self.regs.write(rd, a & imm as u32);
            },
            Instruction::Slli { rd, rs1, shamt } => {
                let a = self.regs.read(rs1);
                proof {
                    lemma_shift_amount_width(a, shamt);
                    lemma_shift_left(a, shamt as u32);
                }
                self.regs.write(rd, a << shamt);
            },
            Instruction::Srli { rd, rs1, shamt } => {
                let a = self.regs.read(rs1);
                proof {
                    lemma_shift_amount_width(a, shamt);
                    lemma_shift_right_logical(a, shamt as u32);
                }
                self.regs.write(rd, a >> shamt);
            },
            Instruction::Srai { rd, rs1, shamt } => {
                let a = self.regs.read(rs1);
                proof {
                    lemma_shift_amount_width(a, shamt);
                    lemma_shift_right_arith(a, shamt as u32);
                }
                self.regs.write(rd, ((a as i32) >> shamt) as u32);
            },
            _ => {},
        }
        self.pc = next_pc;
    }

    /// Register-register ALU instructions.
    fn execute_op(&mut self, inst: Instruction)
        requires
            is_op(inst),
            inst.operands_in_range(),
            access_in_bounds(old(self)@, inst),
        ensures
            (final(self)@, StepResult::Continue) == execute(old(self)@, inst),
    {
        // Each 32-bit instruction = 2 cells
        let mut next_pc = self.pc.wrapping_add(2);
        proof {
            lemma_wrapping_add(self.pc, 2);
        }
        match inst {
            Instruction::Add { rd, rs1, rs2 } => {
                let a = self.regs.read(rs1);
                let b = self.regs.read(rs2);
                proof {
                    lemma_wrapping_add(a, b);
                }
                self.regs.write(rd, a.wrapping_add(b));
            },
            Instruction::Sub { rd, rs1, rs2 } => {
                let a = self.regs.read(rs1);
                let b = self.regs.read(rs2);
                proof {
                    lemma_wrapping_sub(a, b);
                }
                self.regs.write(rd, a.wrapping_sub(b));
            },
            Instruction::Sll { rd, rs1, rs2 } => {
                let a = self.regs.read(rs1);
                let b = self.regs.read(rs2);
                proof {
                    lemma_masks(b);
                    lemma_shift_left(a, b & 0x1F);
                }
                self.regs.write(rd, a << (b & 0x1F));
            },
            Instruction::Slt { rd, rs1, rs2 } => {
                let a = self.regs.read(rs1);
                let b = self.regs.read(rs2);
                proof {
                    lemma_u32_to_i32(a);
                    lemma_u32_to_i32(b);
                }
                let val = if (a as i32) < (b as i32) {
                    1
                } else {
                    0
                };
                self.regs.write(rd, val);
            },
            Instruction::Sltu { rd, rs1, rs2 } => {
                let val = if self.regs.read(rs1) < self.regs.read(rs2) {
                    1
                } else {
                    0
                };
                self.regs.write(rd, val);
            },
            Instruction::Xor { rd, rs1, rs2 } => {
                let a = self.regs.read(rs1);
                let b = self.regs.read(rs2);
                self.regs.write(rd, a ^ b);
            },
            Instruction::Srl { rd, rs1, rs2 } => {
                let a = self.regs.read(rs1);
                let b = self.regs.read(rs2);
                proof {
                    lemma_masks(b);
                    lemma_shift_right_logical(a, b & 0x1F);
                }
                self.regs.write(rd, a >> (b & 0x1F));
            },
            Instruction::Sra { rd, rs1, rs2 } => {
                let a = self.regs.read(rs1);
                let b = self.regs.read(rs2);
                proof {
                    lemma_masks(b);
                    lemma_shift_right_arith(a, b & 0x1F);
                }
                self.regs.write(rd, ((a as i32) >> (b & 0x1F)) as u32);
            },
            Instruction::Or { rd, rs1, rs2 } => {
                let a = self.regs.read(rs1);
                let b = self.regs.read(rs2);
                self.regs.write(rd, a | b);
            },
            Instruction::And { rd, rs1, rs2 } => {
                let a = self.regs.read(rs1);
                let b = self.regs.read(rs2);
                self.regs.write(rd, a & b);
            },
            _ => {},
        }
        self.pc = next_pc;
    }

    fn store_cell(&mut self, cell_addr: u32, val: u16)
        requires
            cell_addr == UART_BASE || cell_addr < old(self)@.mem.len(),
        ensures
            final(self)@ == store_cell_spec(old(self)@, cell_addr, val),
    {
        if cell_addr == UART_BASE {
            self.uart_output.push(val);
        } else {
            self.mem.store16(cell_addr, val);
        }
    }
}

/// Whether cells `addr` and `addr + 1` exist in a memory of `n` cells.
fn two_cells_exist(addr: u32, n: usize) -> (r: bool)
    ensures
        r == (addr + 1 < n),
{
    let a = addr as usize;
    a < n && n - a >= 2
}

proof fn lemma_low_byte(c: u16)
    by (bit_vector)
    ensures
        c as u8 == c % 0x100,
{
}

proof fn lemma_pack_bytes(lo: u16, hi: u16)
    by (bit_vector)
    requires
        lo < 0x100,
        hi < 0x100,
    ensures
        lo | (hi << 8) == lo + 0x100 * hi,
{
}

} // verus!
