//! What each instruction does, stated as properties of its inputs and results:
//! algebraic laws of the ALU operations, how the branches relate to each other,
//! and how an immediate form relates to its register form.

use crate::cpu::{execute, MachineState, StepResult};
use crate::decode::Instruction;
use crate::isa::{lemma_i32_to_u32, signed, wrap};
use crate::registers::NUM_REGS;
use vstd::arithmetic::div_mod::{
    lemma_fundamental_div_mod, lemma_fundamental_div_mod_converse, lemma_mod_bound,
    lemma_mod_pos_bound,
};
use vstd::arithmetic::power2::{lemma2_to64, lemma_pow2_pos, lemma_pow2_strictly_increases, pow2};
use vstd::prelude::*;

verus! {

/// The registers are sixteen and the named ones exist.
pub open spec fn regs_ok(s: MachineState, rd: u8, rs1: u8, rs2: u8) -> bool {
    &&& s.regs.len() == NUM_REGS
    &&& rd < NUM_REGS
    &&& rs1 < NUM_REGS
    &&& rs2 < NUM_REGS
}

/// The value `inst` leaves in register `rd`.
pub open spec fn result_reg(s: MachineState, inst: Instruction, rd: u8) -> u32 {
    execute(s, inst).0.reg(rd)
}

proof fn lemma_xor_or_and(a: u32, b: u32)
    by (bit_vector)
    ensures
        (a ^ b) ^ b == a,
        a ^ a == 0,
        (a | b) & a == a,
        (a | b) & b == b,
        ((a | b) & !a) & !b == 0,
        (a & b) | a == a,
        (a & b) | b == b,
        (a & b) & !(a & b) == 0,
{
}

/// XOR: the result xor-ed with rs2 gives back rs1; a register xor-ed with itself
/// is 0.
pub proof fn lemma_xor_law(s: MachineState, rd: u8, rs1: u8, rs2: u8)
    requires
        regs_ok(s, rd, rs1, rs2),
        rd != 0,
    ensures
        result_reg(s, Instruction::Xor { rd, rs1, rs2 }, rd) ^ s.reg(rs2) == s.reg(rs1),
        rs1 == rs2 ==> result_reg(s, Instruction::Xor { rd, rs1, rs2 }, rd) == 0,
{
    lemma_xor_or_and(s.reg(rs1), s.reg(rs2));
}

/// OR: the result has every bit of rs1 and of rs2, and no other bit.
pub proof fn lemma_or_law(s: MachineState, rd: u8, rs1: u8, rs2: u8)
    requires
        regs_ok(s, rd, rs1, rs2),
        rd != 0,
    ensures
        ({
            let r = result_reg(s, Instruction::Or { rd, rs1, rs2 }, rd);
            &&& r & s.reg(rs1) == s.reg(rs1)
            &&& r & s.reg(rs2) == s.reg(rs2)
            &&& (r & !s.reg(rs1)) & !s.reg(rs2) == 0
        }),
{
    lemma_xor_or_and(s.reg(rs1), s.reg(rs2));
}

proof fn lemma_and_bits(a: u32, b: u32, r: u32)
    by (bit_vector)
    requires
        r == a & b,
    ensures
        r | a == a,
        r | b == b,
        (a & b) & !r == 0,
{
}

/// AND: the result has only bits of both rs1 and rs2, and every bit they share.
pub proof fn lemma_and_law(s: MachineState, rd: u8, rs1: u8, rs2: u8)
    requires
        regs_ok(s, rd, rs1, rs2),
        rd != 0,
    ensures
        ({
            let r = result_reg(s, Instruction::And { rd, rs1, rs2 }, rd);
            &&& r | s.reg(rs1) == s.reg(rs1)
            &&& r | s.reg(rs2) == s.reg(rs2)
            &&& (s.reg(rs1) & s.reg(rs2)) & !r == 0
        }),
{
    lemma_and_bits(s.reg(rs1), s.reg(rs2), s.reg(rs1) & s.reg(rs2));
}

/// ADD and SUB: the result is congruent to rs1 + rs2 (rs1 - rs2) modulo 2^32, and
/// SUB of the sum and rs2 gives back rs1.
pub proof fn lemma_add_sub_law(s: MachineState, rd: u8, rs1: u8, rs2: u8)
    requires
        regs_ok(s, rd, rs1, rs2),
        rd != 0,
    ensures
        (result_reg(s, Instruction::Add { rd, rs1, rs2 }, rd) - s.reg(rs1) - s.reg(rs2))
            % 0x1_0000_0000 == 0,
        (result_reg(s, Instruction::Sub { rd, rs1, rs2 }, rd) - s.reg(rs1) + s.reg(rs2))
            % 0x1_0000_0000 == 0,
        rd != rs2 ==> result_reg(
            execute(s, Instruction::Add { rd, rs1, rs2 }).0,
            Instruction::Sub { rd, rs1: rd, rs2 },
            rd,
        ) == s.reg(rs1),
{
    let a = s.reg(rs1) as int;
    let b = s.reg(rs2) as int;
    let m = 0x1_0000_0000int;
    lemma_fundamental_div_mod(a + b, m);
    lemma_fundamental_div_mod(a - b, m);
    let t = execute(s, Instruction::Add { rd, rs1, rs2 }).0;
    if rd != rs2 {
        let sum = wrap(a + b);
        assert(t.reg(rd) == sum);
        assert(t.reg(rs2) == b);
        lemma_fundamental_div_mod(sum - b, m);
        lemma_fundamental_div_mod_converse_sub(a, b, sum as int);
    }
}

proof fn lemma_fundamental_div_mod_converse_sub(a: int, b: int, sum: int)
    requires
        0 <= a < 0x1_0000_0000,
        0 <= b < 0x1_0000_0000,
        sum == (a + b) % 0x1_0000_0000,
    ensures
        (sum - b) % 0x1_0000_0000 == a,
{
    lemma_fundamental_div_mod(a + b, 0x1_0000_0000);
    lemma_fundamental_div_mod(sum - b, 0x1_0000_0000);
}

/// `inst`, a branch with offset `imm`, moves the PC to `pc + imm`.
pub open spec fn branch_taken(s: MachineState, inst: Instruction, imm: i32) -> bool {
    execute(s, inst).0.pc == wrap(s.pc + imm)
}

/// The branches compare their two registers as the RISC-V tables say:
/// - each goes either to `pc + imm` or to `pc + 2` and changes nothing else;
/// - BEQ/BNE, BLT/BGE and BLTU/BGEU are complementary pairs;
/// - equal operands take BEQ and BGEU and BGE, never BLT or BLTU;
/// - the "less than" branches are asymmetric and total on distinct values;
/// - 0 is the least unsigned value, a word with bit 31 set is below 0 signed;
/// - below 2^31 the signed and unsigned orders agree.
pub proof fn lemma_branch_laws(s: MachineState, rs1: u8, rs2: u8, imm: i32)
    requires
        regs_ok(s, 0, rs1, rs2),
        wrap(s.pc + imm) != wrap(s.pc + 2),
    ensures
        ({
            let a = s.reg(rs1);
            let b = s.reg(rs2);
            let beq = branch_taken(s, Instruction::Beq { rs1, rs2, imm }, imm);
            let bne = branch_taken(s, Instruction::Bne { rs1, rs2, imm }, imm);
            let blt = branch_taken(s, Instruction::Blt { rs1, rs2, imm }, imm);
            let bge = branch_taken(s, Instruction::Bge { rs1, rs2, imm }, imm);
            let bltu = branch_taken(s, Instruction::Bltu { rs1, rs2, imm }, imm);
            let bgeu = branch_taken(s, Instruction::Bgeu { rs1, rs2, imm }, imm);
            let blt_rev = branch_taken(s, Instruction::Blt { rs1: rs2, rs2: rs1, imm }, imm);
            let bltu_rev = branch_taken(s, Instruction::Bltu { rs1: rs2, rs2: rs1, imm }, imm);
            &&& beq == !bne
            &&& blt == !bge
            &&& bltu == !bgeu
            &&& beq == (a == b)
            &&& a == b ==> !blt && !bltu && bge && bgeu
            &&& !(blt && blt_rev)
            &&& !(bltu && bltu_rev)
            &&& a != b ==> (blt || blt_rev) && (bltu || bltu_rev)
            &&& a == 0 && b != 0 ==> bltu
            &&& a >= 0x8000_0000 && b == 0 ==> blt
            &&& a < 0x8000_0000 && b < 0x8000_0000 ==> (blt == bltu)
        }),
        forall|inst: Instruction|
            #![trigger execute(s, inst)]
            (inst == Instruction::Beq { rs1, rs2, imm } || inst == Instruction::Bne { rs1, rs2, imm }
                || inst == Instruction::Blt { rs1, rs2, imm } || inst == Instruction::Bge {
                rs1,
                rs2,
                imm,
            } || inst == Instruction::Bltu { rs1, rs2, imm } || inst == Instruction::Bgeu {
                rs1,
                rs2,
                imm,
            }) ==> {
                &&& (execute(s, inst).0.pc == wrap(s.pc + imm) || execute(s, inst).0.pc == wrap(
                    s.pc + 2,
                ))
                &&& execute(s, inst).0.regs == s.regs
                &&& execute(s, inst).0.mem == s.mem
                &&& execute(s, inst).0.uart == s.uart
                &&& execute(s, inst).1 == StepResult::Continue
            },
{
}

/// SLT and SLTU write 1 exactly when BLT and BLTU on the same registers branch,
/// and 0 otherwise.
pub proof fn lemma_set_less_than_law(s: MachineState, rd: u8, rs1: u8, rs2: u8, imm: i32)
    requires
        regs_ok(s, rd, rs1, rs2),
        rd != 0,
        wrap(s.pc + imm) != wrap(s.pc + 2),
    ensures
        ({
            let slt = result_reg(s, Instruction::Slt { rd, rs1, rs2 }, rd);
            let sltu = result_reg(s, Instruction::Sltu { rd, rs1, rs2 }, rd);
            &&& slt == 0 || slt == 1
            &&& sltu == 0 || sltu == 1
            &&& (slt == 1) == branch_taken(s, Instruction::Blt { rs1, rs2, imm }, imm)
            &&& (sltu == 1) == branch_taken(s, Instruction::Bltu { rs1, rs2, imm }, imm)
        }),
{
}

/// The register-immediate ALU forms act as the register-register forms with the
/// sign-extended immediate in place of rs2.
pub proof fn lemma_immediate_forms(s: MachineState, rd: u8, rs1: u8, rs2: u8, imm: i32)
    requires
        regs_ok(s, rd, rs1, rs2),
        s.reg(rs2) == imm as u32,
    ensures
        execute(s, Instruction::Addi { rd, rs1, imm }) == execute(s, Instruction::Add { rd, rs1, rs2 }),
        execute(s, Instruction::Slti { rd, rs1, imm }) == execute(s, Instruction::Slt { rd, rs1, rs2 }),
        execute(s, Instruction::Sltiu { rd, rs1, imm }) == execute(
            s,
            Instruction::Sltu { rd, rs1, rs2 },
        ),
        execute(s, Instruction::Xori { rd, rs1, imm }) == execute(s, Instruction::Xor { rd, rs1, rs2 }),
        execute(s, Instruction::Ori { rd, rs1, imm }) == execute(s, Instruction::Or { rd, rs1, rs2 }),
        execute(s, Instruction::Andi { rd, rs1, imm }) == execute(s, Instruction::And { rd, rs1, rs2 }),
{
    lemma_i32_to_u32(imm);
    let a = s.reg(rs1) as int;
    lemma_fundamental_div_mod(imm as int, 0x1_0000_0000);
    lemma_fundamental_div_mod(a + imm, 0x1_0000_0000);
    lemma_fundamental_div_mod(a + wrap(imm as int), 0x1_0000_0000);
    assert(wrap(a + imm) == wrap(a + wrap(imm as int)));
    assert(signed(imm as u32) == imm) by {
        crate::isa::lemma_u32_to_i32(imm as u32);
    }
}

/// The shifts by an immediate act as the shifts by register with the shift amount
/// in rs2.
pub proof fn lemma_immediate_shifts(s: MachineState, rd: u8, rs1: u8, rs2: u8, shamt: u8)
    requires
        regs_ok(s, rd, rs1, rs2),
        shamt < 32,
        s.reg(rs2) == shamt as u32,
    ensures
        execute(s, Instruction::Slli { rd, rs1, shamt }) == execute(s, Instruction::Sll { rd, rs1, rs2 }),
        execute(s, Instruction::Srli { rd, rs1, shamt }) == execute(s, Instruction::Srl { rd, rs1, rs2 }),
        execute(s, Instruction::Srai { rd, rs1, shamt }) == execute(s, Instruction::Sra { rd, rs1, rs2 }),
{
}

proof fn lemma_signed_wrap(q: int)
    requires
        -0x8000_0000 <= q < 0x8000_0000,
    ensures
        signed(wrap(q)) == q,
{
    if q < 0 {
        lemma_fundamental_div_mod_converse(q, 0x1_0000_0000, -1, q + 0x1_0000_0000);
    } else {
        lemma_fundamental_div_mod_converse(q, 0x1_0000_0000, 0, q);
    }
}

/// The shifts by register, by the low five bits `k` of rs2:
/// - SLL: the result is congruent to rs1 * 2^k modulo 2^32;
/// - SRL: the result is rs1 / 2^k rounded down (result * 2^k <= rs1 < (result + 1) * 2^k);
/// - SRA: the same on signed values, rounding toward minus infinity.
pub proof fn lemma_shift_laws(s: MachineState, rd: u8, rs1: u8, rs2: u8)
    requires
        regs_ok(s, rd, rs1, rs2),
        rd != 0,
    ensures
        ({
            let a = s.reg(rs1);
            let d = pow2((s.reg(rs2) % 32) as nat) as int;
            let sll = result_reg(s, Instruction::Sll { rd, rs1, rs2 }, rd);
            let srl = result_reg(s, Instruction::Srl { rd, rs1, rs2 }, rd);
            let sra = result_reg(s, Instruction::Sra { rd, rs1, rs2 }, rd);
            &&& (sll - a * d) % 0x1_0000_0000 == 0
            &&& srl * d <= a < (srl + 1) * d
            &&& signed(sra) * d <= signed(a) < (signed(sra) + 1) * d
        }),
{
    let a = s.reg(rs1);
    let k = (s.reg(rs2) % 32) as nat;
    let d = pow2(k) as int;
    lemma_pow2_pos(k);
    lemma2_to64();
    lemma_pow2_strictly_increases(k, 32);
    // SLL
    lemma_fundamental_div_mod(a * d, 0x1_0000_0000);
    // SRL
    lemma_fundamental_div_mod(a as int, d);
    lemma_mod_pos_bound(a as int, d);
    let q = a as int / d;
    assert(0 <= q <= a) by (nonlinear_arith)
        requires
            d > 0,
            q == a as int / d,
            a >= 0,
    ;
    assert(q * d <= a < (q + 1) * d) by (nonlinear_arith)
        requires
            a == d * q + a as int % d,
            0 <= a as int % d < d,
    ;
    // SRA
    let x = signed(a);
    lemma_fundamental_div_mod(x, d);
    lemma_mod_bound(x, d);
    let qs = x / d;
    assert(-0x8000_0000 <= qs < 0x8000_0000) by (nonlinear_arith)
        requires
            d >= 1,
            x == d * qs + x % d,
            0 <= x % d < d,
            -0x8000_0000 <= x < 0x8000_0000,
    ;
    lemma_signed_wrap(qs);
    assert(qs * d <= x < (qs + 1) * d) by (nonlinear_arith)
        requires
            x == d * qs + x % d,
            0 <= x % d < d,
    ;
}

/// JAL and JALR link the next instruction (pc + 2) and jump: JAL by its offset,
/// JALR to rs1 + offset with bit 0 cleared. A JALR through the link register
/// returns to the instruction after the JAL.
pub proof fn lemma_jump_laws(s: MachineState, rd: u8, rs1: u8, imm: i32, jimm: i32)
    requires
        regs_ok(s, rd, rs1, 0),
        rd != 0,
        s.pc % 2 == 0,
    ensures
        ({
            let jal = execute(s, Instruction::Jal { rd, imm: jimm }).0;
            let jalr = execute(s, Instruction::Jalr { rd, rs1, imm }).0;
            let back = execute(jal, Instruction::Jalr { rd: 0, rs1: rd, imm: 0 }).0;
            &&& jal.reg(rd) == wrap(s.pc + 2)
            &&& (jal.pc - s.pc - jimm) % 0x1_0000_0000 == 0
            &&& jalr.reg(rd) == wrap(s.pc + 2)
            &&& jalr.pc % 2 == 0
            &&& 0 <= wrap(s.reg(rs1) + imm) - jalr.pc <= 1
            &&& back.pc == wrap(s.pc + 2)
            &&& back.regs == jal.regs
        }),
{
    lemma_fundamental_div_mod(s.pc + jimm, 0x1_0000_0000);
    let t = wrap(s.reg(rs1) + imm);
    crate::isa::lemma_masks(t);
    crate::isa::lemma_wrap_even(s.pc + 2);
    let n = wrap(s.pc + 2);
    crate::isa::lemma_masks(n);
    lemma_fundamental_div_mod(n + 0, 0x1_0000_0000);
}

/// LUI loads its immediate; AUIPC adds it to the PC, so at PC 0 they agree.
pub proof fn lemma_upper_immediate_laws(s: MachineState, rd: u8, imm: u32)
    requires
        regs_ok(s, rd, 0, 0),
        rd != 0,
    ensures
        result_reg(s, Instruction::Lui { rd, imm }, rd) == imm,
        (result_reg(s, Instruction::Auipc { rd, imm }, rd) - s.pc - imm) % 0x1_0000_0000 == 0,
        s.pc == 0 ==> execute(s, Instruction::Auipc { rd, imm }) == execute(
            s,
            Instruction::Lui { rd, imm },
        ),
{
    lemma_fundamental_div_mod(s.pc + imm, 0x1_0000_0000);
}

/// Loads read the cells at rs1 + offset (modulo 2^32): LBU/LHU the cell
/// zero-extended, LB/LH the cell sign-extended (upper half all ones exactly when
/// bit 15 is set), LW the two cells, low half first.
pub proof fn lemma_load_laws(s: MachineState, rd: u8, rs1: u8, imm: i32)
    requires
        regs_ok(s, rd, rs1, 0),
        rd != 0,
        wrap(s.reg(rs1) + imm) + 1 < s.mem.len(),
    ensures
        ({
            let addr = s.effective_addr(rs1, imm) as int;
            let cell = s.mem[addr];
            let lbu = result_reg(s, Instruction::Lbu { rd, rs1, imm }, rd);
            let lhu = result_reg(s, Instruction::Lhu { rd, rs1, imm }, rd);
            let lb = result_reg(s, Instruction::Lb { rd, rs1, imm }, rd);
            let lh = result_reg(s, Instruction::Lh { rd, rs1, imm }, rd);
            let lw = result_reg(s, Instruction::Lw { rd, rs1, imm }, rd);
            &&& (addr - s.reg(rs1) - imm) % 0x1_0000_0000 == 0
            &&& lbu == cell && lhu == cell
            &&& lb % 0x1_0000 == cell && lh == lb
            &&& lb / 0x1_0000 == (if cell >= 0x8000 {
                0xFFFFu32
            } else {
                0
            })
            &&& lw % 0x1_0000 == cell
            &&& lw / 0x1_0000 == s.mem[addr + 1]
        }),
{
    let a = s.reg(rs1) as int;
    lemma_fundamental_div_mod(a + imm, 0x1_0000_0000);
    let cell = s.mem[s.effective_addr(rs1, imm) as int];
    let v = if cell >= 0x8000 { cell - 0x1_0000 } else { cell as int };
    lemma_fundamental_div_mod(v, 0x1_0000_0000);
}

} // verus!
