use crate::isa::{
    funct3_field, funct7_field, imm_b_field, imm_i_field, imm_j_field, imm_s_field, imm_u_field,
    opcode_field, rd_field, rs1_field, rs2_field,
};
use vstd::prelude::*;

verus! {

/// Decoded instruction — every RV32E instruction maps to one of these.
#[derive(Debug)]
pub enum Instruction {
    Lui { rd: u8, imm: u32 },
    Auipc { rd: u8, imm: u32 },
    Jal { rd: u8, imm: i32 },
    Jalr { rd: u8, rs1: u8, imm: i32 },
    Beq { rs1: u8, rs2: u8, imm: i32 },
    Bne { rs1: u8, rs2: u8, imm: i32 },
    Blt { rs1: u8, rs2: u8, imm: i32 },
    Bge { rs1: u8, rs2: u8, imm: i32 },
    Bltu { rs1: u8, rs2: u8, imm: i32 },
    Bgeu { rs1: u8, rs2: u8, imm: i32 },
    Lb { rd: u8, rs1: u8, imm: i32 },
    Lbu { rd: u8, rs1: u8, imm: i32 },
    Lh { rd: u8, rs1: u8, imm: i32 },
    Lhu { rd: u8, rs1: u8, imm: i32 },
    Lw { rd: u8, rs1: u8, imm: i32 },
    Sb { rs1: u8, rs2: u8, imm: i32 },
    Sh { rs1: u8, rs2: u8, imm: i32 },
    Sw { rs1: u8, rs2: u8, imm: i32 },
    Addi { rd: u8, rs1: u8, imm: i32 },
    Slti { rd: u8, rs1: u8, imm: i32 },
    Sltiu { rd: u8, rs1: u8, imm: i32 },
    Xori { rd: u8, rs1: u8, imm: i32 },
    Ori { rd: u8, rs1: u8, imm: i32 },
    Andi { rd: u8, rs1: u8, imm: i32 },
    Slli { rd: u8, rs1: u8, shamt: u8 },
    Srli { rd: u8, rs1: u8, shamt: u8 },
    Srai { rd: u8, rs1: u8, shamt: u8 },
    Add { rd: u8, rs1: u8, rs2: u8 },
    Sub { rd: u8, rs1: u8, rs2: u8 },
    Sll { rd: u8, rs1: u8, rs2: u8 },
    Slt { rd: u8, rs1: u8, rs2: u8 },
    Sltu { rd: u8, rs1: u8, rs2: u8 },
    Xor { rd: u8, rs1: u8, rs2: u8 },
    Srl { rd: u8, rs1: u8, rs2: u8 },
    Sra { rd: u8, rs1: u8, rs2: u8 },
    Or { rd: u8, rs1: u8, rs2: u8 },
    And { rd: u8, rs1: u8, rs2: u8 },
    Ecall,
    Ebreak,
}

impl Instruction {
    /// Every register index names one of the sixteen registers and every shift
    /// amount is below 32.
    pub open spec fn operands_in_range(self) -> bool {
        match self {
            Instruction::Lui { rd, .. } => rd < 16,
            Instruction::Auipc { rd, .. } => rd < 16,
            Instruction::Jal { rd, .. } => rd < 16,
            Instruction::Jalr { rd, rs1, .. } => rd < 16 && rs1 < 16,
            Instruction::Beq { rs1, rs2, .. } => rs1 < 16 && rs2 < 16,
            Instruction::Bne { rs1, rs2, .. } => rs1 < 16 && rs2 < 16,
            Instruction::Blt { rs1, rs2, .. } => rs1 < 16 && rs2 < 16,
            Instruction::Bge { rs1, rs2, .. } => rs1 < 16 && rs2 < 16,
            Instruction::Bltu { rs1, rs2, .. } => rs1 < 16 && rs2 < 16,
            Instruction::Bgeu { rs1, rs2, .. } => rs1 < 16 && rs2 < 16,
            Instruction::Lb { rd, rs1, .. } => rd < 16 && rs1 < 16,
            Instruction::Lbu { rd, rs1, .. } => rd < 16 && rs1 < 16,
            Instruction::Lh { rd, rs1, .. } => rd < 16 && rs1 < 16,
            Instruction::Lhu { rd, rs1, .. } => rd < 16 && rs1 < 16,
            Instruction::Lw { rd, rs1, .. } => rd < 16 && rs1 < 16,
            Instruction::Sb { rs1, rs2, .. } => rs1 < 16 && rs2 < 16,
            Instruction::Sh { rs1, rs2, .. } => rs1 < 16 && rs2 < 16,
            Instruction::Sw { rs1, rs2, .. } => rs1 < 16 && rs2 < 16,
            Instruction::Addi { rd, rs1, .. } => rd < 16 && rs1 < 16,
            Instruction::Slti { rd, rs1, .. } => rd < 16 && rs1 < 16,
            Instruction::Sltiu { rd, rs1, .. } => rd < 16 && rs1 < 16,
            Instruction::Xori { rd, rs1, .. } => rd < 16 && rs1 < 16,
            Instruction::Ori { rd, rs1, .. } => rd < 16 && rs1 < 16,
            Instruction::Andi { rd, rs1, .. } => rd < 16 && rs1 < 16,
            Instruction::Slli { rd, rs1, shamt } => rd < 16 && rs1 < 16 && shamt < 32,
            Instruction::Srli { rd, rs1, shamt } => rd < 16 && rs1 < 16 && shamt < 32,
            Instruction::Srai { rd, rs1, shamt } => rd < 16 && rs1 < 16 && shamt < 32,
            Instruction::Add { rd, rs1, rs2 } => rd < 16 && rs1 < 16 && rs2 < 16,
            Instruction::Sub { rd, rs1, rs2 } => rd < 16 && rs1 < 16 && rs2 < 16,
            Instruction::Sll { rd, rs1, rs2 } => rd < 16 && rs1 < 16 && rs2 < 16,
            Instruction::Slt { rd, rs1, rs2 } => rd < 16 && rs1 < 16 && rs2 < 16,
            Instruction::Sltu { rd, rs1, rs2 } => rd < 16 && rs1 < 16 && rs2 < 16,
            Instruction::Xor { rd, rs1, rs2 } => rd < 16 && rs1 < 16 && rs2 < 16,
            Instruction::Srl { rd, rs1, rs2 } => rd < 16 && rs1 < 16 && rs2 < 16,
            Instruction::Sra { rd, rs1, rs2 } => rd < 16 && rs1 < 16 && rs2 < 16,
            Instruction::Or { rd, rs1, rs2 } => rd < 16 && rs1 < 16 && rs2 < 16,
            Instruction::And { rd, rs1, rs2 } => rd < 16 && rs1 < 16 && rs2 < 16,
            Instruction::Ecall => true,
            Instruction::Ebreak => true,
        }
    }
}

/// The instruction that the word `inst` encodes, per the RV32E opcode, funct3 and
/// funct7 tables; `None` for an encoding outside them.
pub open spec fn spec_decode(inst: u32) -> Option<Instruction> {
    let rd = rd_field(inst);
    let rs1 = rs1_field(inst);
    let rs2 = rs2_field(inst);
    let f3 = funct3_field(inst);
    let f7 = funct7_field(inst);
    let op = opcode_field(inst);
    if op == 0b0110111 {
        Some(Instruction::Lui { rd, imm: imm_u_field(inst) })
    } else if op == 0b0010111 {
        Some(Instruction::Auipc { rd, imm: imm_u_field(inst) })
    } else if op == 0b1101111 {
        Some(Instruction::Jal { rd, imm: imm_j_field(inst) })
    } else if op == 0b1100111 {
        Some(Instruction::Jalr { rd, rs1, imm: imm_i_field(inst) })
    } else if op == 0b1100011 {
        let imm = imm_b_field(inst);
        if f3 == 0b000 {
            Some(Instruction::Beq { rs1, rs2, imm })
        } else if f3 == 0b001 {
            Some(Instruction::Bne { rs1, rs2, imm })
        } else if f3 == 0b100 {
            Some(Instruction::Blt { rs1, rs2, imm })
        } else if f3 == 0b101 {
            Some(Instruction::Bge { rs1, rs2, imm })
        } else if f3 == 0b110 {
            Some(Instruction::Bltu { rs1, rs2, imm })
        } else if f3 == 0b111 {
            Some(Instruction::Bgeu { rs1, rs2, imm })
        } else {
            None
        }
    } else if op == 0b0000011 {
        let imm = imm_i_field(inst);
        if f3 == 0b000 {
            Some(Instruction::Lb { rd, rs1, imm })
        } else if f3 == 0b001 {
            Some(Instruction::Lh { rd, rs1, imm })
        } else if f3 == 0b010 {
            Some(Instruction::Lw { rd, rs1, imm })
        } else if f3 == 0b100 {
            Some(Instruction::Lbu { rd, rs1, imm })
        } else if f3 == 0b101 {
            Some(Instruction::Lhu { rd, rs1, imm })
        } else {
            None
        }
    } else if op == 0b0100011 {
        let imm = imm_s_field(inst);
        if f3 == 0b000 {
            Some(Instruction::Sb { rs1, rs2, imm })
        } else if f3 == 0b001 {
            Some(Instruction::Sh { rs1, rs2, imm })
        } else if f3 == 0b010 {
            Some(Instruction::Sw { rs1, rs2, imm })
        } else {
            None
        }
    } else if op == 0b0010011 {
        let imm = imm_i_field(inst);
        // the shift amount is the low five bits of the immediate, bits [24:20]
        let shamt = ((inst / 0x10_0000) % 0x20) as u8;
        if f3 == 0b000 {
            Some(Instruction::Addi { rd, rs1, imm })
        } else if f3 == 0b010 {
            Some(Instruction::Slti { rd, rs1, imm })
        } else if f3 == 0b011 {
            Some(Instruction::Sltiu { rd, rs1, imm })
        } else if f3 == 0b100 {
            Some(Instruction::Xori { rd, rs1, imm })
        } else if f3 == 0b110 {
            Some(Instruction::Ori { rd, rs1, imm })
        } else if f3 == 0b111 {
            Some(Instruction::Andi { rd, rs1, imm })
        } else if f3 == 0b001 {
            Some(Instruction::Slli { rd, rs1, shamt })
        } else if f3 == 0b101 {
            // bit 30 selects the arithmetic shift
            if (f7 / 0x20) % 2 == 1 {
                Some(Instruction::Srai { rd, rs1, shamt })
            } else {
                Some(Instruction::Srli { rd, rs1, shamt })
            }
        } else {
            None
        }
    } else if op == 0b0110011 {
        if f3 == 0b000 && f7 == 0 {
            Some(Instruction::Add { rd, rs1, rs2 })
        } else if f3 == 0b000 && f7 == 0b0100000 {
            Some(Instruction::Sub { rd, rs1, rs2 })
        } else if f3 == 0b001 && f7 == 0 {
            Some(Instruction::Sll { rd, rs1, rs2 })
        } else if f3 == 0b010 && f7 == 0 {
            Some(Instruction::Slt { rd, rs1, rs2 })
        } else if f3 == 0b011 && f7 == 0 {
            Some(Instruction::Sltu { rd, rs1, rs2 })
        } else if f3 == 0b100 && f7 == 0 {
            Some(Instruction::Xor { rd, rs1, rs2 })
        } else if f3 == 0b101 && f7 == 0 {
            Some(Instruction::Srl { rd, rs1, rs2 })
        } else if f3 == 0b101 && f7 == 0b0100000 {
            Some(Instruction::Sra { rd, rs1, rs2 })
        } else if f3 == 0b110 && f7 == 0 {
            Some(Instruction::Or { rd, rs1, rs2 })
        } else if f3 == 0b111 && f7 == 0 {
            Some(Instruction::And { rd, rs1, rs2 })
        } else {
            None
        }
    } else if op == 0b1110011 {
        if inst == 0x0000_0073 {
            Some(Instruction::Ecall)
        } else if inst == 0x0010_0073 {
            Some(Instruction::Ebreak)
        } else {
            None
        }
    } else {
        None
    }
}

proof fn lemma_plain_fields(inst: u32)
    by (bit_vector)
    ensures
        inst & 0x7F == inst % 0x80,
        (inst >> 7) & 0xF == (inst / 0x80) % 0x10,
        (inst >> 15) & 0xF == (inst / 0x8000) % 0x10,
        (inst >> 20) & 0xF == (inst / 0x10_0000) % 0x10,
        (inst >> 12) & 0x7 == (inst / 0x1000) % 0x8,
        (inst >> 25) & 0x7F == inst / 0x200_0000,
        inst & 0xFFFFF000 == (inst / 0x1000) * 0x1000,
        (inst >> 20) & 0x1F == (inst / 0x10_0000) % 0x20,
{
}

proof fn lemma_bit5(x: u32)
    by (bit_vector)
    ensures
        (x & 0x20 != 0) == ((x / 0x20) % 2 == 1),
{
}

proof fn lemma_imm_i(inst: u32)
    by (bit_vector)
    ensures
        ((inst as i32) >> 20) as int == (if inst / 0x10_0000 >= 0x800 {
            inst / 0x10_0000 - 0x1000
        } else {
            (inst / 0x10_0000) as int
        }),
        (((inst as i32) >> 20) & 0x1F) as int == (inst / 0x10_0000) % 0x20,
{
}

proof fn lemma_imm_s(inst: u32)
    by (bit_vector)
    ensures
        (((inst >> 25) & 0x7F) << 5) | ((inst >> 7) & 0x1F) == (inst / 0x200_0000) * 0x20 + (
        inst / 0x80) % 0x20,
        (inst & 0x8000_0000 != 0) == ((inst / 0x200_0000) * 0x20 + (inst / 0x80) % 0x20 >= 0x800),
        (inst / 0x200_0000) * 0x20 + (inst / 0x80) % 0x20 < 0x1000,
{
}

proof fn lemma_imm_b(inst: u32)
    by (bit_vector)
    ensures
        (((inst >> 31) & 1) << 12) | (((inst >> 7) & 1) << 11) | (((inst >> 25) & 0x3F) << 5) | (((
        inst >> 8) & 0xF) << 1) == (inst / 0x8000_0000) * 0x1000 + ((inst / 0x80) % 2) * 0x800 + ((
        inst / 0x200_0000) % 0x40) * 0x20 + ((inst / 0x100) % 0x10) * 2,
        (((inst >> 31) & 1) != 0) == ((inst / 0x8000_0000) * 0x1000 + ((inst / 0x80) % 2) * 0x800 + (
        (inst / 0x200_0000) % 0x40) * 0x20 + ((inst / 0x100) % 0x10) * 2 >= 0x1000),
        (inst / 0x8000_0000) * 0x1000 + ((inst / 0x80) % 2) * 0x800 + ((inst / 0x200_0000) % 0x40)
            * 0x20 + ((inst / 0x100) % 0x10) * 2 < 0x2000,
        1i32 << 13i32 == 0x2000i32,
{
}

proof fn lemma_imm_j(inst: u32)
    by (bit_vector)
    ensures
        (((inst >> 31) & 1) << 20) | (((inst >> 12) & 0xFF) << 12) | (((inst >> 20) & 1) << 11) | (((
        inst >> 21) & 0x3FF) << 1) == (inst / 0x8000_0000) * 0x10_0000 + ((inst / 0x1000) % 0x100)
            * 0x1000 + ((inst / 0x10_0000) % 2) * 0x800 + ((inst / 0x20_0000) % 0x400) * 2,
        (((inst >> 31) & 1) != 0) == ((inst / 0x8000_0000) * 0x10_0000 + ((inst / 0x1000) % 0x100)
            * 0x1000 + ((inst / 0x10_0000) % 2) * 0x800 + ((inst / 0x20_0000) % 0x400) * 2
            >= 0x10_0000),
        (inst / 0x8000_0000) * 0x10_0000 + ((inst / 0x1000) % 0x100) * 0x1000 + ((inst / 0x10_0000)
            % 2) * 0x800 + ((inst / 0x20_0000) % 0x400) * 2 < 0x20_0000,
        1i32 << 21i32 == 0x20_0000i32,
{
}

fn rd(inst: u32) -> (r: u8)
    ensures
        r == rd_field(inst),
{
    proof {
        lemma_plain_fields(inst);
    }
    ((inst >> 7) & 0xF) as u8
}

fn rs1(inst: u32) -> (r: u8)
    ensures
        r == rs1_field(inst),
{
    proof {
        lemma_plain_fields(inst);
    }
    ((inst >> 15) & 0xF) as u8
}

fn rs2(inst: u32) -> (r: u8)
    ensures
        r == rs2_field(inst),
{
    proof {
        lemma_plain_fields(inst);
    }
    ((inst >> 20) & 0xF) as u8
}

fn funct3(inst: u32) -> (r: u32)
    ensures
        r == funct3_field(inst),
{
    proof {
        lemma_plain_fields(inst);
    }
    (inst >> 12) & 0x7
}

fn funct7(inst: u32) -> (r: u32)
    ensures
        r == funct7_field(inst),
{
    proof {
        lemma_plain_fields(inst);
    }
    (inst >> 25) & 0x7F
}

fn imm_i(inst: u32) -> (r: i32)
    ensures
        r == imm_i_field(inst),
{
    proof {
        lemma_imm_i(inst);
    }
    (inst as i32) >> 20
}

fn imm_s(inst: u32) -> (r: i32)
    ensures
        r == imm_s_field(inst),
{
    let lo = (inst >> 7) & 0x1F;
    let hi = (inst >> 25) & 0x7F;
    proof {
        lemma_imm_s(inst);
    }
    let v = (hi << 5) | lo;
    v as i32 - if inst & 0x8000_0000 != 0 {
        4096
    } else {
        0
    }
}

fn imm_b(inst: u32) -> (r: i32)
    ensures
        r == imm_b_field(inst),
{
    let b11 = (inst >> 7) & 1;
    let b4_1 = (inst >> 8) & 0xF;
    let b10_5 = (inst >> 25) & 0x3F;
    let b12 = (inst >> 31) & 1;
    proof {
        lemma_imm_b(inst);
    }
    let imm = (b12 << 12) | (b11 << 11) | (b10_5 << 5) | (b4_1 << 1);
    if b12 != 0 {
        imm as i32 - (1 << 13)
    } else {
        imm as i32
    }
}

fn imm_u(inst: u32) -> (r: u32)
    ensures
        r == imm_u_field(inst),
{
    proof {
        lemma_plain_fields(inst);
    }
    inst & 0xFFFFF000
}

fn imm_j(inst: u32) -> (r: i32)
    ensures
        r == imm_j_field(inst),
{
    let b19_12 = (inst >> 12) & 0xFF;
    let b11 = (inst >> 20) & 1;
    let b10_1 = (inst >> 21) & 0x3FF;
    let b20 = (inst >> 31) & 1;
    proof {
        lemma_imm_j(inst);
    }
    let imm = (b20 << 20) | (b19_12 << 12) | (b11 << 11) | (b10_1 << 1);
    if b20 != 0 {
        imm as i32 - (1 << 21)
    } else {
        imm as i32
    }
}

/// Decodes a 32-bit instruction word; `None` when the word encodes no RV32E instruction.
pub fn decode(inst: u32) -> (r: Option<Instruction>)
    ensures
        r == spec_decode(inst),
{
    proof {
        lemma_plain_fields(inst);
        lemma_imm_i(inst);
    }
    let opcode = inst & 0x7F;
    match opcode {
        0b0110111 => Some(Instruction::Lui { rd: rd(inst), imm: imm_u(inst) }),
        0b0010111 => Some(Instruction::Auipc { rd: rd(inst), imm: imm_u(inst) }),
        0b1101111 => Some(Instruction::Jal { rd: rd(inst), imm: imm_j(inst) }),
        0b1100111 => Some(Instruction::Jalr { rd: rd(inst), rs1: rs1(inst), imm: imm_i(inst) }),
        0b1100011 => {
            let (r1, r2, imm) = (rs1(inst), rs2(inst), imm_b(inst));
            match funct3(inst) {
                0b000 => Some(Instruction::Beq { rs1: r1, rs2: r2, imm }),
                0b001 => Some(Instruction::Bne { rs1: r1, rs2: r2, imm }),
                0b100 => Some(Instruction::Blt { rs1: r1, rs2: r2, imm }),
                0b101 => Some(Instruction::Bge { rs1: r1, rs2: r2, imm }),
                0b110 => Some(Instruction::Bltu { rs1: r1, rs2: r2, imm }),
                0b111 => Some(Instruction::Bgeu { rs1: r1, rs2: r2, imm }),
                _ => None,
            }
        },
        0b0000011 => {
            let (d, r1, imm) = (rd(inst), rs1(inst), imm_i(inst));
            match funct3(inst) {
                0b000 => Some(Instruction::Lb { rd: d, rs1: r1, imm }),
                0b001 => Some(Instruction::Lh { rd: d, rs1: r1, imm }),
                0b010 => Some(Instruction::Lw { rd: d, rs1: r1, imm }),
                0b100 => Some(Instruction::Lbu { rd: d, rs1: r1, imm }),
                0b101 => Some(Instruction::Lhu { rd: d, rs1: r1, imm }),
                _ => None,
            }
        },
        0b0100011 => {
            let (r1, r2, imm) = (rs1(inst), rs2(inst), imm_s(inst));
            match funct3(inst) {
                0b000 => Some(Instruction::Sb { rs1: r1, rs2: r2, imm }),
                0b001 => Some(Instruction::Sh { rs1: r1, rs2: r2, imm }),
                0b010 => Some(Instruction::Sw { rs1: r1, rs2: r2, imm }),
                _ => None,
            }
        },
        // I-type ALU
        0b0010011 => {
            let (d, r1, imm) = (rd(inst), rs1(inst), imm_i(inst));
            match funct3(inst) {
                0b000 => Some(Instruction::Addi { rd: d, rs1: r1, imm }),
                0b010 => Some(Instruction::Slti { rd: d, rs1: r1, imm }),
                0b011 => Some(Instruction::Sltiu { rd: d, rs1: r1, imm }),
                0b100 => Some(Instruction::Xori { rd: d, rs1: r1, imm }),
                0b110 => Some(Instruction::Ori { rd: d, rs1: r1, imm }),
                0b111 => Some(Instruction::Andi { rd: d, rs1: r1, imm }),
                0b001 => Some(Instruction::Slli { rd: d, rs1: r1, shamt: (imm & 0x1F) as u8 }),
                0b101 => {
                    let f7 = funct7(inst);
                    proof {
                        lemma_bit5(f7);
                    }
                    if f7 & 0x20 != 0 {
                        Some(Instruction::Srai { rd: d, rs1: r1, shamt: (imm & 0x1F) as u8 })
                    } else {
                        Some(Instruction::Srli { rd: d, rs1: r1, shamt: (imm & 0x1F) as u8 })
                    }
                },
                _ => None,
            }
        },
        // R-type ALU
        0b0110011 => {
            let (d, r1, r2) = (rd(inst), rs1(inst), rs2(inst));
            match (funct3(inst), funct7(inst)) {
                (0b000, 0b0000000) => Some(Instruction::Add { rd: d, rs1: r1, rs2: r2 }),
                (0b000, 0b0100000) => Some(Instruction::Sub { rd: d, rs1: r1, rs2: r2 }),
                (0b001, 0b0000000) => Some(Instruction::Sll { rd: d, rs1: r1, rs2: r2 }),
                (0b010, 0b0000000) => Some(Instruction::Slt { rd: d, rs1: r1, rs2: r2 }),
                (0b011, 0b0000000) => Some(Instruction::Sltu { rd: d, rs1: r1, rs2: r2 }),
                (0b100, 0b0000000) => Some(Instruction::Xor { rd: d, rs1: r1, rs2: r2 }),
                (0b101, 0b0000000) => Some(Instruction::Srl { rd: d, rs1: r1, rs2: r2 }),
                (0b101, 0b0100000) => Some(Instruction::Sra { rd: d, rs1: r1, rs2: r2 }),
                (0b110, 0b0000000) => Some(Instruction::Or { rd: d, rs1: r1, rs2: r2 }),
                (0b111, 0b0000000) => Some(Instruction::And { rd: d, rs1: r1, rs2: r2 }),
                _ => None,
            }
        },
        // SYSTEM
        0b1110011 => {
            if inst == 0x00000073 {
                Some(Instruction::Ecall)
            } else if inst == 0x00100073 {
                Some(Instruction::Ebreak)
            } else {
                None
            }
        },
        _ => None,
    }
}

/// Jump and branch offsets are even: the implicit zero bit 0 keeps targets at
/// whole instructions (2 cells each).
pub proof fn lemma_decoded_offsets_even(inst: u32)
    ensures
        spec_decode(inst) matches Some(Instruction::Jal { imm, .. }) ==> imm % 2 == 0,
        spec_decode(inst) matches Some(Instruction::Beq { imm, .. }) ==> imm % 2 == 0,
        spec_decode(inst) matches Some(Instruction::Bne { imm, .. }) ==> imm % 2 == 0,
        spec_decode(inst) matches Some(Instruction::Blt { imm, .. }) ==> imm % 2 == 0,
        spec_decode(inst) matches Some(Instruction::Bge { imm, .. }) ==> imm % 2 == 0,
        spec_decode(inst) matches Some(Instruction::Bltu { imm, .. }) ==> imm % 2 == 0,
        spec_decode(inst) matches Some(Instruction::Bgeu { imm, .. }) ==> imm % 2 == 0,
{
}

/// Whatever a word decodes to names only registers x0 to x15, and its shift
/// amounts are below 32.
pub proof fn lemma_decoded_operands_in_range(inst: u32)
    ensures
        spec_decode(inst) matches Some(i) ==> i.operands_in_range(),
{
}

} // verus!
