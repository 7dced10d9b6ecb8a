use mips_sim::instr::{
    extract_opcode, parse_immediate_instr, parse_immediate_instr_and_op, parse_instr,
    parse_jump_instr, parse_register_instr, DecodeError, IOp, IType, Instr, JOp, JType, ROp,
    RType,
};

const R_TABLE: [(u32, ROp); 27] = [
    (0x00, ROp::SLL),
    (0x02, ROp::SRL),
    (0x03, ROp::SRA),
    (0x04, ROp::SLLV),
    (0x06, ROp::SRLV),
    (0x07, ROp::SRAV),
    (0x08, ROp::JR),
    (0x09, ROp::JALR),
    (0x0C, ROp::SYSCALL),
    (0x10, ROp::MFHI),
    (0x11, ROp::MTHI),
    (0x12, ROp::MFLO),
    (0x13, ROp::MTLO),
    (0x18, ROp::MULT),
    (0x19, ROp::MULTU),
    (0x1A, ROp::DIV),
    (0x1B, ROp::DIVU),
    (0x20, ROp::ADD),
    (0x21, ROp::ADDU),
    (0x22, ROp::SUB),
    (0x23, ROp::SUBU),
    (0x24, ROp::AND),
    (0x25, ROp::OR),
    (0x26, ROp::XOR),
    (0x27, ROp::NOR),
    (0x2A, ROp::SLT),
    (0x2B, ROp::SLTU),
];

const I_TABLE: [(u32, IOp); 20] = [
    (0x04, IOp::BEQ),
    (0x05, IOp::BNE),
    (0x06, IOp::BLEZ),
    (0x07, IOp::BGTZ),
    (0x08, IOp::ADDI),
    (0x09, IOp::ADDIU),
    (0x0A, IOp::SLTI),
    (0x0B, IOp::SLTIU),
    (0x0C, IOp::ANDI),
    (0x0D, IOp::ORI),
    (0x0E, IOp::XORI),
    (0x0F, IOp::LUI),
    (0x20, IOp::LB),
    (0x21, IOp::LH),
    (0x23, IOp::LW),
    (0x24, IOp::LBU),
    (0x25, IOp::LHU),
    (0x28, IOp::SB),
    (0x29, IOp::SH),
    (0x2B, IOp::SW),
];

const REGIMM_TABLE: [(u32, IOp); 4] =
    [(0x00, IOp::BLTZ), (0x01, IOp::BGEZ), (0x10, IOp::BLTZAL), (0x11, IOp::BGEZAL)];

fn pack_r(rs: u32, rt: u32, rd: u32, shamt: u32, funct: u32) -> u32 {
    (rs << 21) | (rt << 16) | (rd << 11) | (shamt << 6) | funct
}

fn pack_i(opcode: u32, rs: u32, rt: u32, imm: u32) -> u32 {
    (opcode << 26) | (rs << 21) | (rt << 16) | imm
}

#[test]
fn extract_opcode_takes_top_six_bits() {
    assert_eq!(extract_opcode(0x24080005), 0x09);
    assert_eq!(extract_opcode(0xFFFFFFFF), 0x3F);
    assert_eq!(extract_opcode(0x03FFFFFF), 0);
    assert_eq!(extract_opcode(0x04000000), 1);
}

#[test]
fn decodes_addiu_word() {
    assert_eq!(
        parse_instr(0x24080005),
        Ok(Instr::IType(IType { opcode: 0x09, rs: 0, rt: 8, imm: 5, op: IOp::ADDIU }))
    );
}

#[test]
fn decodes_slt_word() {
    assert_eq!(
        parse_instr(0x0022182A),
        Ok(Instr::RType(RType {
            opcode: 0,
            rs: 1,
            rt: 2,
            rd: 3,
            shamt: 0,
            funct: 0x2A,
            op: ROp::SLT
        }))
    );
}

#[test]
fn decodes_jal_word() {
    assert_eq!(
        parse_instr(0x0C100000),
        Ok(Instr::JType(JType { opcode: 3, target: 0x0010_0000, op: JOp::JAL }))
    );
}

#[test]
fn decodes_j_with_full_target() {
    assert_eq!(
        parse_instr(0x0BFFFFFF),
        Ok(Instr::JType(JType { opcode: 2, target: 0x03FF_FFFF, op: JOp::J }))
    );
}

#[test]
fn decodes_every_function_code() {
    for (funct, op) in R_TABLE {
        let word = pack_r(31, 17, 9, 21, funct);
        assert_eq!(
            parse_instr(word),
            Ok(Instr::RType(RType { opcode: 0, rs: 31, rt: 17, rd: 9, shamt: 21, funct, op }))
        );
    }
}

#[test]
fn rejects_every_other_function_code() {
    for funct in 0..64u32 {
        if R_TABLE.iter().all(|(f, _)| *f != funct) {
            assert_eq!(parse_instr(pack_r(1, 2, 3, 4, funct)), Err(DecodeError::UnknownOpcode));
            assert_eq!(
                parse_register_instr(pack_r(1, 2, 3, 4, funct)),
                Err(DecodeError::UnknownOpcode)
            );
        }
    }
}

#[test]
fn decodes_every_immediate_opcode() {
    for (opcode, op) in I_TABLE {
        let word = pack_i(opcode, 3, 30, 0xBEEF);
        assert_eq!(
            parse_instr(word),
            Ok(Instr::IType(IType { opcode, rs: 3, rt: 30, imm: 0xBEEF, op }))
        );
    }
}

#[test]
fn decodes_every_regimm_selector() {
    for (selector, op) in REGIMM_TABLE {
        let word = pack_i(1, 7, selector, 0x8001);
        assert_eq!(
            parse_instr(word),
            Ok(Instr::IType(IType { opcode: 1, rs: 7, rt: selector, imm: 0x8001, op }))
        );
        assert_eq!(
            parse_immediate_instr_and_op(word),
            Ok(IType { opcode: 1, rs: 7, rt: selector, imm: 0x8001, op })
        );
    }
}

#[test]
fn rejects_every_other_regimm_selector() {
    for selector in 0..32u32 {
        if REGIMM_TABLE.iter().all(|(s, _)| *s != selector) {
            assert_eq!(parse_instr(pack_i(1, 7, selector, 4)), Err(DecodeError::UnknownOpcode));
            assert_eq!(
                parse_immediate_instr_and_op(pack_i(1, 7, selector, 4)),
                Err(DecodeError::UnknownOpcode)
            );
        }
    }
}

#[test]
fn rejects_every_other_primary_opcode() {
    for opcode in 4..64u32 {
        if I_TABLE.iter().all(|(o, _)| *o != opcode) {
            assert_eq!(parse_instr(pack_i(opcode, 1, 2, 3)), Err(DecodeError::UnknownOpcode));
        }
    }
}

#[test]
fn zero_word_decodes_as_shift() {
    assert_eq!(
        parse_instr(0),
        Ok(Instr::RType(RType {
            opcode: 0,
            rs: 0,
            rt: 0,
            rd: 0,
            shamt: 0,
            funct: 0,
            op: ROp::SLL
        }))
    );
}

#[test]
fn field_parsers_keep_the_given_operation() {
    assert_eq!(
        parse_jump_instr(0x0C100000, JOp::JAL),
        JType { opcode: 3, target: 0x0010_0000, op: JOp::JAL }
    );
    assert_eq!(
        parse_immediate_instr(0x3508BEEF, IOp::ORI),
        IType { opcode: 0x0D, rs: 8, rt: 8, imm: 0xBEEF, op: IOp::ORI }
    );
    assert_eq!(
        parse_register_instr(0x0022182A),
        Ok(RType { opcode: 0, rs: 1, rt: 2, rd: 3, shamt: 0, funct: 0x2A, op: ROp::SLT })
    );
}

#[test]
fn encode_packs_fields_at_their_positions() {
    let addiu = IType { opcode: 0x09, rs: 0, rt: 8, imm: 5, op: IOp::ADDIU };
    assert_eq!(addiu.encode(), 0x24080005);
    let slt = RType { opcode: 0, rs: 1, rt: 2, rd: 3, shamt: 0, funct: 0x2A, op: ROp::SLT };
    assert_eq!(slt.encode(), 0x0022182A);
    let jal = JType { opcode: 3, target: 0x0010_0000, op: JOp::JAL };
    assert_eq!(jal.encode(), 0x0C100000);
    assert_eq!(Instr::IType(addiu).encode(), 0x24080005);
    assert_eq!(Instr::RType(slt).encode(), 0x0022182A);
    assert_eq!(Instr::JType(jal).encode(), 0x0C100000);
}

#[test]
fn decode_inverts_encode_for_every_operation() {
    let fields = [(0u32, 0u32, 0u32, 0u32), (31, 31, 31, 31), (5, 10, 20, 1), (16, 1, 8, 30)];
    for (rs, rt, rd, shamt) in fields {
        for (funct, op) in R_TABLE {
            let instr = Instr::RType(RType { opcode: 0, rs, rt, rd, shamt, funct, op });
            assert_eq!(parse_instr(instr.encode()), Ok(instr));
        }
        for imm in [0u32, 1, 0x7FFF, 0x8000, 0xFFFF] {
            for (opcode, op) in I_TABLE {
                let instr = Instr::IType(IType { opcode, rs, rt, imm, op });
                assert_eq!(parse_instr(instr.encode()), Ok(instr));
            }
            for (selector, op) in REGIMM_TABLE {
                let instr = Instr::IType(IType { opcode: 1, rs, rt: selector, imm, op });
                assert_eq!(parse_instr(instr.encode()), Ok(instr));
            }
        }
    }
    for target in [0u32, 1, 0x0010_0000, 0x03FF_FFFF] {
        for (opcode, op) in [(2u32, JOp::J), (3, JOp::JAL)] {
            let instr = Instr::JType(JType { opcode, target, op });
            assert_eq!(parse_instr(instr.encode()), Ok(instr));
        }
    }
}

#[test]
fn encode_inverts_decode() {
    for word in [0x24080005u32, 0x3C08DEAD, 0x3508BEEF, 0x10220002, 0x0C100000, 0x0022182A] {
        match parse_instr(word) {
            Ok(instr) => assert_eq!(instr.encode(), word),
            Err(e) => panic!("{:#010X} does not decode: {:?}", word, e),
        }
    }
}

#[test]
fn decoding_twice_gives_the_same() {
    for word in [0u32, 0x24080005, 0xFFFFFFFF, 0x0000003F, 0x04100000] {
        assert_eq!(parse_instr(word), parse_instr(word));
    }
}
