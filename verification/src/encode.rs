//! The RV32 instruction formats, written as bit fields, and the law that the
//! decoder reads every well-formed instruction back from its encoding.

use crate::decode::{spec_decode, Instruction};
use vstd::prelude::*;

verus! {

/// R-type: funct7 | rs2 | rs1 | funct3 | rd | opcode.
pub open spec fn enc_r(f7: u32, rs2: u32, rs1: u32, f3: u32, rd: u32, op: u32) -> u32 {
    (f7 << 25u32) | (rs2 << 20u32) | (rs1 << 15u32) | (f3 << 12u32) | (rd << 7u32) | op
}

/// I-type: imm[11:0] | rs1 | funct3 | rd | opcode.
pub open spec fn enc_i(imm: i32, rs1: u32, f3: u32, rd: u32, op: u32) -> u32 {
    ((imm as u32) << 20u32) | (rs1 << 15u32) | (f3 << 12u32) | (rd << 7u32) | op
}

/// S-type: imm[11:5] | rs2 | rs1 | funct3 | imm[4:0] | opcode.
pub open spec fn enc_s(imm: i32, rs2: u32, rs1: u32, f3: u32, op: u32) -> u32 {
    ((((imm as u32) >> 5u32) & 0x7F) << 25u32) | (rs2 << 20u32) | (rs1 << 15u32) | (f3 << 12u32)
        | (((imm as u32) & 0x1F) << 7u32) | op
}

/// B-type: imm[12] | imm[10:5] | rs2 | rs1 | funct3 | imm[4:1] | imm[11] | opcode.
pub open spec fn enc_b(imm: i32, rs2: u32, rs1: u32, f3: u32, op: u32) -> u32 {
    ((((imm as u32) >> 12u32) & 1) << 31u32) | ((((imm as u32) >> 5u32) & 0x3F) << 25u32) | (rs2
        << 20u32) | (rs1 << 15u32) | (f3 << 12u32) | ((((imm as u32) >> 1u32) & 0xF) << 8u32) | ((((
    imm as u32) >> 11u32) & 1) << 7u32) | op
}

/// U-type: imm[31:12] | rd | opcode.
pub open spec fn enc_u(imm: u32, rd: u32, op: u32) -> u32 {
    (imm & 0xFFFF_F000) | (rd << 7u32) | op
}

/// J-type: imm[20] | imm[10:1] | imm[11] | imm[19:12] | rd | opcode.
pub open spec fn enc_j(imm: i32, rd: u32, op: u32) -> u32 {
    ((((imm as u32) >> 20u32) & 1) << 31u32) | ((((imm as u32) >> 1u32) & 0x3FF) << 21u32) | ((((
    imm as u32) >> 11u32) & 1) << 20u32) | ((((imm as u32) >> 12u32) & 0xFF) << 12u32) | (rd
        << 7u32) | op
}

/// The standard RV32 encoding of an instruction (opcode, funct3 and funct7 from
/// the RV32I tables; LB/LH/LBU/LHU/SB/SH with their RV32I funct3 values).
pub open spec fn encode(inst: Instruction) -> u32 {
    match inst {
        Instruction::Lui { rd, imm } => enc_u(imm, rd as u32, 0x37),
        Instruction::Auipc { rd, imm } => enc_u(imm, rd as u32, 0x17),
        Instruction::Jal { rd, imm } => enc_j(imm, rd as u32, 0x6F),
        Instruction::Jalr { rd, rs1, imm } => enc_i(imm, rs1 as u32, 0, rd as u32, 0x67),
        Instruction::Beq { rs1, rs2, imm } => enc_b(imm, rs2 as u32, rs1 as u32, 0, 0x63),
        Instruction::Bne { rs1, rs2, imm } => enc_b(imm, rs2 as u32, rs1 as u32, 1, 0x63),
        Instruction::Blt { rs1, rs2, imm } => enc_b(imm, rs2 as u32, rs1 as u32, 4, 0x63),
        Instruction::Bge { rs1, rs2, imm } => enc_b(imm, rs2 as u32, rs1 as u32, 5, 0x63),
        Instruction::Bltu { rs1, rs2, imm } => enc_b(imm, rs2 as u32, rs1 as u32, 6, 0x63),
        Instruction::Bgeu { rs1, rs2, imm } => enc_b(imm, rs2 as u32, rs1 as u32, 7, 0x63),
        Instruction::Lb { rd, rs1, imm } => enc_i(imm, rs1 as u32, 0, rd as u32, 0x03),
        Instruction::Lh { rd, rs1, imm } => enc_i(imm, rs1 as u32, 1, rd as u32, 0x03),
        Instruction::Lw { rd, rs1, imm } => enc_i(imm, rs1 as u32, 2, rd as u32, 0x03),
        Instruction::Lbu { rd, rs1, imm } => enc_i(imm, rs1 as u32, 4, rd as u32, 0x03),
        Instruction::Lhu { rd, rs1, imm } => enc_i(imm, rs1 as u32, 5, rd as u32, 0x03),
        Instruction::Sb { rs1, rs2, imm } => enc_s(imm, rs2 as u32, rs1 as u32, 0, 0x23),
        Instruction::Sh { rs1, rs2, imm } => enc_s(imm, rs2 as u32, rs1 as u32, 1, 0x23),
        Instruction::Sw { rs1, rs2, imm } => enc_s(imm, rs2 as u32, rs1 as u32, 2, 0x23),
        Instruction::Addi { rd, rs1, imm } => enc_i(imm, rs1 as u32, 0, rd as u32, 0x13),
        Instruction::Slti { rd, rs1, imm } => enc_i(imm, rs1 as u32, 2, rd as u32, 0x13),
        Instruction::Sltiu { rd, rs1, imm } => enc_i(imm, rs1 as u32, 3, rd as u32, 0x13),
        Instruction::Xori { rd, rs1, imm } => enc_i(imm, rs1 as u32, 4, rd as u32, 0x13),
        Instruction::Ori { rd, rs1, imm } => enc_i(imm, rs1 as u32, 6, rd as u32, 0x13),
        Instruction::Andi { rd, rs1, imm } => enc_i(imm, rs1 as u32, 7, rd as u32, 0x13),
        Instruction::Slli { rd, rs1, shamt } => enc_i(shamt as i32, rs1 as u32, 1, rd as u32, 0x13),
        Instruction::Srli { rd, rs1, shamt } => enc_i(shamt as i32, rs1 as u32, 5, rd as u32, 0x13),
        Instruction::Srai { rd, rs1, shamt } => enc_i(
            (0x400 + shamt) as i32,
            rs1 as u32,
            5,
            rd as u32,
            0x13,
        ),
        Instruction::Add { rd, rs1, rs2 } => enc_r(0, rs2 as u32, rs1 as u32, 0, rd as u32, 0x33),
        Instruction::Sub { rd, rs1, rs2 } => enc_r(0x20, rs2 as u32, rs1 as u32, 0, rd as u32, 0x33),
        Instruction::Sll { rd, rs1, rs2 } => enc_r(0, rs2 as u32, rs1 as u32, 1, rd as u32, 0x33),
        Instruction::Slt { rd, rs1, rs2 } => enc_r(0, rs2 as u32, rs1 as u32, 2, rd as u32, 0x33),
        Instruction::Sltu { rd, rs1, rs2 } => enc_r(0, rs2 as u32, rs1 as u32, 3, rd as u32, 0x33),
        Instruction::Xor { rd, rs1, rs2 } => enc_r(0, rs2 as u32, rs1 as u32, 4, rd as u32, 0x33),
        Instruction::Srl { rd, rs1, rs2 } => enc_r(0, rs2 as u32, rs1 as u32, 5, rd as u32, 0x33),
        Instruction::Sra { rd, rs1, rs2 } => enc_r(0x20, rs2 as u32, rs1 as u32, 5, rd as u32, 0x33),
        Instruction::Or { rd, rs1, rs2 } => enc_r(0, rs2 as u32, rs1 as u32, 6, rd as u32, 0x33),
        Instruction::And { rd, rs1, rs2 } => enc_r(0, rs2 as u32, rs1 as u32, 7, rd as u32, 0x33),
        Instruction::Ecall => 0x0000_0073,
        Instruction::Ebreak => 0x0010_0073,
    }
}

/// The immediate fits its format: 12 signed bits for I and S, 13 even signed bits
/// for B, 21 even signed bits for J, low twelve bits zero for U.
pub open spec fn imm_encodable(inst: Instruction) -> bool {
    match inst {
        Instruction::Lui { imm, .. } => imm % 0x1000 == 0,
        Instruction::Auipc { imm, .. } => imm % 0x1000 == 0,
        Instruction::Jal { imm, .. } => -0x10_0000 <= imm < 0x10_0000 && imm % 2 == 0,
        Instruction::Beq { imm, .. } => -0x1000 <= imm < 0x1000 && imm % 2 == 0,
        Instruction::Bne { imm, .. } => -0x1000 <= imm < 0x1000 && imm % 2 == 0,
        Instruction::Blt { imm, .. } => -0x1000 <= imm < 0x1000 && imm % 2 == 0,
        Instruction::Bge { imm, .. } => -0x1000 <= imm < 0x1000 && imm % 2 == 0,
        Instruction::Bltu { imm, .. } => -0x1000 <= imm < 0x1000 && imm % 2 == 0,
        Instruction::Bgeu { imm, .. } => -0x1000 <= imm < 0x1000 && imm % 2 == 0,
        Instruction::Jalr { imm, .. } => -0x800 <= imm < 0x800,
        Instruction::Lb { imm, .. } => -0x800 <= imm < 0x800,
        Instruction::Lh { imm, .. } => -0x800 <= imm < 0x800,
        Instruction::Lw { imm, .. } => -0x800 <= imm < 0x800,
        Instruction::Lbu { imm, .. } => -0x800 <= imm < 0x800,
        Instruction::Lhu { imm, .. } => -0x800 <= imm < 0x800,
        Instruction::Sb { imm, .. } => -0x800 <= imm < 0x800,
        Instruction::Sh { imm, .. } => -0x800 <= imm < 0x800,
        Instruction::Sw { imm, .. } => -0x800 <= imm < 0x800,
        Instruction::Addi { imm, .. } => -0x800 <= imm < 0x800,
        Instruction::Slti { imm, .. } => -0x800 <= imm < 0x800,
        Instruction::Sltiu { imm, .. } => -0x800 <= imm < 0x800,
        Instruction::Xori { imm, .. } => -0x800 <= imm < 0x800,
        Instruction::Ori { imm, .. } => -0x800 <= imm < 0x800,
        Instruction::Andi { imm, .. } => -0x800 <= imm < 0x800,
        _ => true,
    }
}

proof fn lemma_r_fields(f7: u32, rs2: u32, rs1: u32, f3: u32, rd: u32, op: u32)
    by (bit_vector)
    requires
        f7 < 0x80,
        rs2 < 0x10,
        rs1 < 0x10,
        f3 < 8,
        rd < 0x10,
        op < 0x80,
    ensures
        enc_r(f7, rs2, rs1, f3, rd, op) % 0x80 == op,
        (enc_r(f7, rs2, rs1, f3, rd, op) / 0x80) % 0x10 == rd,
        (enc_r(f7, rs2, rs1, f3, rd, op) / 0x1000) % 8 == f3,
        (enc_r(f7, rs2, rs1, f3, rd, op) / 0x8000) % 0x10 == rs1,
        (enc_r(f7, rs2, rs1, f3, rd, op) / 0x10_0000) % 0x10 == rs2,
        enc_r(f7, rs2, rs1, f3, rd, op) / 0x200_0000 == f7,
{
}

proof fn lemma_i_fields(imm: i32, rs1: u32, f3: u32, rd: u32, op: u32)
    by (bit_vector)
    requires
        -0x800 <= imm < 0x800,
        rs1 < 0x10,
        f3 < 8,
        rd < 0x10,
        op < 0x80,
    ensures
        enc_i(imm, rs1, f3, rd, op) % 0x80 == op,
        (enc_i(imm, rs1, f3, rd, op) / 0x80) % 0x10 == rd,
        (enc_i(imm, rs1, f3, rd, op) / 0x1000) % 8 == f3,
        (enc_i(imm, rs1, f3, rd, op) / 0x8000) % 0x10 == rs1,
        (if enc_i(imm, rs1, f3, rd, op) / 0x10_0000 >= 0x800 {
            (enc_i(imm, rs1, f3, rd, op) / 0x10_0000) as int - 0x1000
        } else {
            (enc_i(imm, rs1, f3, rd, op) / 0x10_0000) as int
        }) == imm as int,
        0 <= imm < 0x20 ==> (enc_i(imm, rs1, f3, rd, op) / 0x10_0000) % 0x20 == imm,
        0 <= imm < 0x20 ==> enc_i(imm, rs1, f3, rd, op) / 0x200_0000 == 0,
        0x400 <= imm < 0x420 ==> (enc_i(imm, rs1, f3, rd, op) / 0x10_0000) % 0x20 == imm - 0x400,
        0x400 <= imm < 0x420 ==> enc_i(imm, rs1, f3, rd, op) / 0x200_0000 == 0x20,
{
}

proof fn lemma_s_fields(imm: i32, rs2: u32, rs1: u32, f3: u32, op: u32)
    by (bit_vector)
    requires
        -0x800 <= imm < 0x800,
        rs2 < 0x10,
        rs1 < 0x10,
        f3 < 8,
        op < 0x80,
    ensures
        enc_s(imm, rs2, rs1, f3, op) % 0x80 == op,
        (enc_s(imm, rs2, rs1, f3, op) / 0x1000) % 8 == f3,
        (enc_s(imm, rs2, rs1, f3, op) / 0x8000) % 0x10 == rs1,
        (enc_s(imm, rs2, rs1, f3, op) / 0x10_0000) % 0x10 == rs2,
        (if (enc_s(imm, rs2, rs1, f3, op) / 0x200_0000) * 0x20 + (enc_s(imm, rs2, rs1, f3, op)
            / 0x80) % 0x20 >= 0x800 {
            ((enc_s(imm, rs2, rs1, f3, op) / 0x200_0000) * 0x20 + (enc_s(imm, rs2, rs1, f3, op)
                / 0x80) % 0x20) as int - 0x1000
        } else {
            ((enc_s(imm, rs2, rs1, f3, op) / 0x200_0000) * 0x20 + (enc_s(imm, rs2, rs1, f3, op)
                / 0x80) % 0x20) as int
        }) == imm as int,
{
}

proof fn lemma_b_fields(imm: i32, rs2: u32, rs1: u32, f3: u32, op: u32)
    by (bit_vector)
    requires
        -0x1000 <= imm < 0x1000,
        imm & 1 == 0,
        rs2 < 0x10,
        rs1 < 0x10,
        f3 < 8,
        op < 0x80,
    ensures
        enc_b(imm, rs2, rs1, f3, op) % 0x80 == op,
        (enc_b(imm, rs2, rs1, f3, op) / 0x1000) % 8 == f3,
        (enc_b(imm, rs2, rs1, f3, op) / 0x8000) % 0x10 == rs1,
        (enc_b(imm, rs2, rs1, f3, op) / 0x10_0000) % 0x10 == rs2,
        ({
            let w = enc_b(imm, rs2, rs1, f3, op);
            let v = (w / 0x8000_0000) * 0x1000 + ((w / 0x80) % 2) * 0x800 + ((w / 0x200_0000)
                % 0x40) * 0x20 + ((w / 0x100) % 0x10) * 2;
            (if v >= 0x1000 {
                v as int - 0x2000
            } else {
                v as int
            }) == imm as int
        }),
{
}

proof fn lemma_u_fields(imm: u32, rd: u32, op: u32)
    by (bit_vector)
    requires
        imm & 0xFFF == 0,
        rd < 0x10,
        op < 0x80,
    ensures
        enc_u(imm, rd, op) % 0x80 == op,
        (enc_u(imm, rd, op) / 0x80) % 0x10 == rd,
        (enc_u(imm, rd, op) / 0x1000) * 0x1000 == imm,
{
}

proof fn lemma_j_fields(imm: i32, rd: u32, op: u32)
    by (bit_vector)
    requires
        -0x10_0000 <= imm < 0x10_0000,
        imm & 1 == 0,
        rd < 0x10,
        op < 0x80,
    ensures
        enc_j(imm, rd, op) % 0x80 == op,
        (enc_j(imm, rd, op) / 0x80) % 0x10 == rd,
        ({
            let w = enc_j(imm, rd, op);
            let v = (w / 0x8000_0000) * 0x10_0000 + ((w / 0x1000) % 0x100) * 0x1000 + ((w
                / 0x10_0000) % 2) * 0x800 + ((w / 0x20_0000) % 0x400) * 2;
            (if v >= 0x10_0000 {
                v as int - 0x20_0000
            } else {
                v as int
            }) == imm as int
        }),
{
}

proof fn lemma_even_bits(imm: i32, u: u32)
    by (bit_vector)
    ensures
        (imm & 1 == 0) == (imm % 2 == 0),
        (u & 0xFFF == 0) == (u % 0x1000 == 0),
{
}

/// Decoding reads back every instruction from its standard encoding: registers,
/// immediates, and which instruction it is (the opcode, funct3 and funct7 tables).
pub proof fn lemma_decode_encode(inst: Instruction)
    requires
        inst.operands_in_range(),
        imm_encodable(inst),
    ensures
        spec_decode(encode(inst)) == Some(inst),
{
    match inst {
        Instruction::Lui { rd, imm } | Instruction::Auipc { rd, imm } => {
            lemma_even_bits(0, imm);
            lemma_u_fields(imm, rd as u32, if inst is Lui { 0x37 } else { 0x17 });
        },
        Instruction::Jal { rd, imm } => {
            lemma_even_bits(imm, 0);
            lemma_j_fields(imm, rd as u32, 0x6F);
        },
        Instruction::Beq { rs1, rs2, imm } => {
            lemma_even_bits(imm, 0);
            lemma_b_fields(imm, rs2 as u32, rs1 as u32, 0, 0x63);
        },
        Instruction::Bne { rs1, rs2, imm } => {
            lemma_even_bits(imm, 0);
            lemma_b_fields(imm, rs2 as u32, rs1 as u32, 1, 0x63);
        },
        Instruction::Blt { rs1, rs2, imm } => {
            lemma_even_bits(imm, 0);
            lemma_b_fields(imm, rs2 as u32, rs1 as u32, 4, 0x63);
        },
        Instruction::Bge { rs1, rs2, imm } => {
            lemma_even_bits(imm, 0);
            lemma_b_fields(imm, rs2 as u32, rs1 as u32, 5, 0x63);
        },
        Instruction::Bltu { rs1, rs2, imm } => {
            lemma_even_bits(imm, 0);
            lemma_b_fields(imm, rs2 as u32, rs1 as u32, 6, 0x63);
        },
        Instruction::Bgeu { rs1, rs2, imm } => {
            lemma_even_bits(imm, 0);
            lemma_b_fields(imm, rs2 as u32, rs1 as u32, 7, 0x63);
        },
        Instruction::Jalr { rd, rs1, imm } => lemma_i_fields(imm, rs1 as u32, 0, rd as u32, 0x67),
        Instruction::Lb { rd, rs1, imm } => lemma_i_fields(imm, rs1 as u32, 0, rd as u32, 0x03),
        Instruction::Lh { rd, rs1, imm } => lemma_i_fields(imm, rs1 as u32, 1, rd as u32, 0x03),
        Instruction::Lw { rd, rs1, imm } => lemma_i_fields(imm, rs1 as u32, 2, rd as u32, 0x03),
        Instruction::Lbu { rd, rs1, imm } => lemma_i_fields(imm, rs1 as u32, 4, rd as u32, 0x03),
        Instruction::Lhu { rd, rs1, imm } => lemma_i_fields(imm, rs1 as u32, 5, rd as u32, 0x03),
        Instruction::Sb { rs1, rs2, imm } => lemma_s_fields(imm, rs2 as u32, rs1 as u32, 0, 0x23),
        Instruction::Sh { rs1, rs2, imm } => lemma_s_fields(imm, rs2 as u32, rs1 as u32, 1, 0x23),
        Instruction::Sw { rs1, rs2, imm } => lemma_s_fields(imm, rs2 as u32, rs1 as u32, 2, 0x23),
        Instruction::Addi { rd, rs1, imm } => lemma_i_fields(imm, rs1 as u32, 0, rd as u32, 0x13),
        Instruction::Slti { rd, rs1, imm } => lemma_i_fields(imm, rs1 as u32, 2, rd as u32, 0x13),
        Instruction::Sltiu { rd, rs1, imm } => lemma_i_fields(imm, rs1 as u32, 3, rd as u32, 0x13),
        Instruction::Xori { rd, rs1, imm } => lemma_i_fields(imm, rs1 as u32, 4, rd as u32, 0x13),
        Instruction::Ori { rd, rs1, imm } => lemma_i_fields(imm, rs1 as u32, 6, rd as u32, 0x13),
        Instruction::Andi { rd, rs1, imm } => lemma_i_fields(imm, rs1 as u32, 7, rd as u32, 0x13),
        Instruction::Slli { rd, rs1, shamt } => lemma_i_fields(
            shamt as i32,
            rs1 as u32,
            1,
            rd as u32,
            0x13,
        ),
        Instruction::Srli { rd, rs1, shamt } => lemma_i_fields(
            shamt as i32,
            rs1 as u32,
            5,
            rd as u32,
            0x13,
        ),
        Instruction::Srai { rd, rs1, shamt } => lemma_i_fields(
            (0x400 + shamt) as i32,
            rs1 as u32,
            5,
            rd as u32,
            0x13,
        ),
        Instruction::Add { rd, rs1, rs2 } => lemma_r_fields(0, rs2 as u32, rs1 as u32, 0, rd as u32, 0x33),
        Instruction::Sub { rd, rs1, rs2 } => lemma_r_fields(0x20, rs2 as u32, rs1 as u32, 0, rd as u32, 0x33),
        Instruction::Sll { rd, rs1, rs2 } => lemma_r_fields(0, rs2 as u32, rs1 as u32, 1, rd as u32, 0x33),
        Instruction::Slt { rd, rs1, rs2 } => lemma_r_fields(0, rs2 as u32, rs1 as u32, 2, rd as u32, 0x33),
        Instruction::Sltu { rd, rs1, rs2 } => lemma_r_fields(0, rs2 as u32, rs1 as u32, 3, rd as u32, 0x33),
        Instruction::Xor { rd, rs1, rs2 } => lemma_r_fields(0, rs2 as u32, rs1 as u32, 4, rd as u32, 0x33),
        Instruction::Srl { rd, rs1, rs2 } => lemma_r_fields(0, rs2 as u32, rs1 as u32, 5, rd as u32, 0x33),
        Instruction::Sra { rd, rs1, rs2 } => lemma_r_fields(0x20, rs2 as u32, rs1 as u32, 5, rd as u32, 0x33),
        Instruction::Or { rd, rs1, rs2 } => lemma_r_fields(0, rs2 as u32, rs1 as u32, 6, rd as u32, 0x33),
        Instruction::And { rd, rs1, rs2 } => lemma_r_fields(0, rs2 as u32, rs1 as u32, 7, rd as u32, 0x33),
        Instruction::Ecall => {},
        Instruction::Ebreak => {},
    }
}

} // verus!
