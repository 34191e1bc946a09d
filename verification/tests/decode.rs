use rv32e_16b::decode::{decode, Instruction};

#[test]
fn decode_addi() {
    // addi x1, x0, 5  =>  imm=5, rs1=0, funct3=000, rd=1, opcode=0010011
    let inst: u32 = 0x00500093;
    match decode(inst) {
        Some(Instruction::Addi { rd, rs1, imm }) => {
            assert_eq!(rd, 1);
            assert_eq!(rs1, 0);
            assert_eq!(imm, 5);
        }
        other => panic!("expected Addi, got {:?}", other),
    }
}

#[test]
fn decode_sw() {
    // sw x1, 0(x2)  =>  imm=0, rs2=1, rs1=2, funct3=010, opcode=0100011
    let inst: u32 = 0x00112023;
    match decode(inst) {
        Some(Instruction::Sw { rs1, rs2, imm }) => {
            assert_eq!(rs1, 2);
            assert_eq!(rs2, 1);
            assert_eq!(imm, 0);
        }
        other => panic!("expected Sw, got {:?}", other),
    }
}

#[test]
fn decode_negative_immediates() {
    // addi x3, x1, -1
    assert!(matches!(decode(0xFFF08193), Some(Instruction::Addi { rd: 3, rs1: 1, imm: -1 })));
    // sw x2, -4(x1): imm = 0xFFC -> hi 0x7F, lo 0x1C
    assert!(matches!(decode(0xFE20AE23), Some(Instruction::Sw { rs1: 1, rs2: 2, imm: -4 })));
    // beq x0, x0, -6
    assert!(matches!(decode(0xFE000DE3), Some(Instruction::Beq { rs1: 0, rs2: 0, imm: -6 })));
    // jal x0, -2
    assert!(matches!(decode(0xFFFFF06F), Some(Instruction::Jal { rd: 0, imm: -2 })));
    // lui x1, 0xDEADC
    assert!(matches!(decode(0xDEADC0B7), Some(Instruction::Lui { rd: 1, imm: 0xDEADC000 })));
}

#[test]
fn decode_shifts_and_systems() {
    assert!(matches!(decode(0x41F25293), Some(Instruction::Srai { rd: 5, rs1: 4, shamt: 31 })));
    assert!(matches!(decode(0x01F2D313), Some(Instruction::Srli { rd: 6, rs1: 5, shamt: 31 })));
    assert!(matches!(decode(0x00000073), Some(Instruction::Ecall)));
    assert!(matches!(decode(0x00100073), Some(Instruction::Ebreak)));
    assert!(matches!(decode(0x00200073), None));
}

#[test]
fn decode_rejects_unknown_encodings() {
    // opcode outside the table
    assert!(decode(0xFFFF_FFFF).is_none());
    // load with funct3 011
    assert!(decode(0x0000B003).is_none());
    // store with funct3 011
    assert!(decode(0x0000B023).is_none());
    // branch with funct3 010
    assert!(decode(0x0000A063).is_none());
    // add with funct7 0000001 (a multiply in RV32M)
    assert!(decode(0x022081B3).is_none());
}

#[test]
fn decode_uses_four_bit_register_fields() {
    // addi with bit 11 set in the rd field: rd reads as 1 (bits [10:7])
    assert!(matches!(decode(0x00500893), Some(Instruction::Addi { rd: 1, rs1: 0, imm: 5 })));
}
