//! Instruction words and their decoder.
//!
//! A 32-bit word splits into fields by position: the primary opcode in bits
//! 31..26, then either a 26-bit jump target (J-form), two register numbers
//! and a 16-bit immediate (I-form), or three register numbers, a shift
//! amount and a function code (R-form). Each operation has one encoding,
//! given by [`JOp::code`], [`IOp::code`] with [`IOp::selector`], and
//! [`ROp::funct`]; the decoder is their inverse.

use vstd::prelude::*;

verus! {

/// A J-form instruction: a primary opcode and a 26-bit jump target.
#[derive(Debug, Clone, Copy, PartialEq, Eq)]
pub struct JType {
    pub opcode: u32,
    pub target: u32,
    pub op: JOp,
}

/// An I-form instruction: a primary opcode, two register numbers and a
/// 16-bit immediate.
#[derive(Debug, Clone, Copy, PartialEq, Eq)]
pub struct IType {
    pub opcode: u32,
    pub rs: u32,
    pub rt: u32,
    pub imm: u32,
    pub op: IOp,
}

/// An R-form instruction: primary opcode 0, three register numbers, a
/// shift amount and a function code.
#[derive(Debug, Clone, Copy, PartialEq, Eq)]
pub struct RType {
    pub opcode: u32,
    pub rs: u32,
    pub rt: u32,
    pub rd: u32,
    pub shamt: u32,
    pub funct: u32,
    pub op: ROp,
}

/// An instruction in one of its three forms.
#[derive(Debug, Clone, Copy, PartialEq, Eq)]
pub enum Instr {
    JType(JType),
    IType(IType),
    RType(RType),
}

/// The jumps of the J-form.
#[derive(Debug, Clone, Copy, PartialEq, Eq)]
pub enum JOp {
    J,
    JAL,
}

/// The operations of the I-form: branches, arithmetic and logic with an
/// immediate, loads and stores. The last four are the REGIMM branches.
#[derive(Debug, Clone, Copy, PartialEq, Eq)]
pub enum IOp {
    BEQ,
    BNE,
    BLEZ,
    BGTZ,
    ADDI,
    ADDIU,
    SLTI,
    SLTIU,
    ANDI,
    ORI,
    XORI,
    LUI,
    LB,
    LH,
    LW,
    LBU,
    LHU,
    SB,
    SH,
    SW,
    BLTZ,
    BGEZ,
    BLTZAL,
    BGEZAL,
}

/// The operations of the R-form.
#[derive(Debug, Clone, Copy, PartialEq, Eq)]
pub enum ROp {
    SLL,
    SRL,
    SRA,
    SLLV,
    SRLV,
    SRAV,
    JR,
    JALR,
    ADD,
    ADDU,
    SUB,
    SUBU,
    AND,
    OR,
    XOR,
    NOR,
    SLT,
    SLTU,
    MULT,
    MULTU,
    DIV,
    DIVU,
    MFHI,
    MFLO,
    MTHI,
    MTLO,
    SYSCALL,
}

/// Why a word is not an instruction.
#[derive(Debug, Clone, Copy, PartialEq, Eq)]
pub enum DecodeError {
    /// No operation has the word's primary opcode, REGIMM selector or
    /// function code.
    UnknownOpcode,
}

const OPCODE_MASK: u32 = 0xFC000000;

const OPCODE_SHIFT: u32 = 26;

const TARGET_MASK: u32 = 0x3FFFFFF;

const RS_MASK: u32 = 0x3E00000;

const RS_SHIFT: u32 = 21;

const RT_MASK: u32 = 0x1F0000;

const RT_SHIFT: u32 = 16;

const RD_MASK: u32 = 0xF800;

const RD_SHIFT: u32 = 11;

const SHAMT_MASK: u32 = 0x7C0;

const SHAMT_SHIFT: u32 = 6;

const FUNCT_MASK: u32 = 0x3F;

const IMM_MASK: u32 = 0xFFFF;

/// Bits 31..26 of a word: the primary opcode.
pub open spec fn field_opcode(word: u32) -> u32 {
    word / 0x400_0000
}

/// Bits 25..21 of a word.
pub open spec fn field_rs(word: u32) -> u32 {
    (word / 0x20_0000) % 32
}

/// Bits 20..16 of a word.
pub open spec fn field_rt(word: u32) -> u32 {
    (word / 0x1_0000) % 32
}

/// Bits 15..11 of a word.
pub open spec fn field_rd(word: u32) -> u32 {
    (word / 0x800) % 32
}

/// Bits 10..6 of a word.
pub open spec fn field_shamt(word: u32) -> u32 {
    (word / 0x40) % 32
}

/// Bits 5..0 of a word.
pub open spec fn field_funct(word: u32) -> u32 {
    word % 0x40
}

/// Bits 15..0 of a word.
pub open spec fn field_imm(word: u32) -> u32 {
    word % 0x1_0000
}

/// Bits 25..0 of a word.
pub open spec fn field_target(word: u32) -> u32 {
    word % 0x400_0000
}

impl JOp {
    /// Primary opcode of the operation.
    pub open spec fn code(self) -> u32 {
        match self {
            JOp::J => 0x02,
            JOp::JAL => 0x03,
        }
    }
}

impl IOp {
    /// Primary opcode of the operation. The four REGIMM branches share 1.
    pub open spec fn code(self) -> u32 {
        match self {
            IOp::BLTZ | IOp::BGEZ | IOp::BLTZAL | IOp::BGEZAL => 0x01,
            IOp::BEQ => 0x04,
            IOp::BNE => 0x05,
            IOp::BLEZ => 0x06,
            IOp::BGTZ => 0x07,
            IOp::ADDI => 0x08,
            IOp::ADDIU => 0x09,
            IOp::SLTI => 0x0A,
            IOp::SLTIU => 0x0B,
            IOp::ANDI => 0x0C,
            IOp::ORI => 0x0D,
            IOp::XORI => 0x0E,
            IOp::LUI => 0x0F,
            IOp::LB => 0x20,
            IOp::LH => 0x21,
            IOp::LW => 0x23,
            IOp::LBU => 0x24,
            IOp::LHU => 0x25,
            IOp::SB => 0x28,
            IOp::SH => 0x29,
            IOp::SW => 0x2B,
        }
    }

    /// For a REGIMM branch, the value of the `rt` field that selects it.
    pub open spec fn selector(self) -> Option<u32> {
        match self {
            IOp::BLTZ => Some(0x00),
            IOp::BGEZ => Some(0x01),
            IOp::BLTZAL => Some(0x10),
            IOp::BGEZAL => Some(0x11),
            _ => None,
        }
    }

    /// Whether a word with this primary opcode and `rt` field holds the
    /// operation.
    pub open spec fn matches_fields(self, opcode: u32, rt: u32) -> bool {
        self.code() == opcode && (self.selector() matches Some(s) ==> s == rt)
    }
}

impl ROp {
    /// Function code of the operation.
    pub open spec fn funct(self) -> u32 {
        match self {
            ROp::SLL => 0x00,
            ROp::SRL => 0x02,
            ROp::SRA => 0x03,
            ROp::SLLV => 0x04,
            ROp::SRLV => 0x06,
            ROp::SRAV => 0x07,
            ROp::JR => 0x08,
            ROp::JALR => 0x09,
            ROp::SYSCALL => 0x0C,
            ROp::MFHI => 0x10,
            ROp::MTHI => 0x11,
            ROp::MFLO => 0x12,
            ROp::MTLO => 0x13,
            ROp::MULT => 0x18,
            ROp::MULTU => 0x19,
            ROp::DIV => 0x1A,
            ROp::DIVU => 0x1B,
            ROp::ADD => 0x20,
            ROp::ADDU => 0x21,
            ROp::SUB => 0x22,
            ROp::SUBU => 0x23,
            ROp::AND => 0x24,
            ROp::OR => 0x25,
            ROp::XOR => 0x26,
            ROp::NOR => 0x27,
            ROp::SLT => 0x2A,
            ROp::SLTU => 0x2B,
        }
    }
}

/// The jump with the given primary opcode, if there is one.
pub open spec fn jop_with(opcode: u32) -> Option<JOp> {
    if exists|op: JOp| op.code() == opcode {
        Some(choose|op: JOp| op.code() == opcode)
    } else {
        None
    }
}

/// The I-form operation with the given primary opcode and `rt` field, if
/// there is one.
pub open spec fn iop_with(opcode: u32, rt: u32) -> Option<IOp> {
    if exists|op: IOp| op.matches_fields(opcode, rt) {
        Some(choose|op: IOp| op.matches_fields(opcode, rt))
    } else {
        None
    }
}

/// The R-form operation with the given function code, if there is one.
pub open spec fn rop_with(funct: u32) -> Option<ROp> {
    if exists|op: ROp| op.funct() == funct {
        Some(choose|op: ROp| op.funct() == funct)
    } else {
        None
    }
}

impl JType {
    /// The fields fit their widths and the opcode is that of the operation.
    pub open spec fn wf(self) -> bool {
        &&& self.opcode == self.op.code()
        &&& self.target < 0x400_0000
    }

    /// The word that holds this instruction.
    pub open spec fn encoding(self) -> u32 {
        (self.opcode * 0x400_0000 + self.target) as u32
    }

    /// Packs the fields into a word.
    pub fn encode(&self) -> (word: u32)
        requires
            self.wf(),
        ensures
            word == self.encoding(),
    {
        let opcode: u32 = self.opcode;
        let target: u32 = self.target;
        assert((opcode << 26) | target == opcode * 0x400_0000 + target) by (bit_vector)
            requires
                opcode < 64,
                target < 0x400_0000,
        ;
        (opcode << OPCODE_SHIFT) | target
    }
}

impl IType {
    /// The fields fit their widths, the opcode is that of the operation,
    /// and `rt` is the selector where the operation has one.
    pub open spec fn wf(self) -> bool {
        &&& self.op.matches_fields(self.opcode, self.rt)
        &&& self.rs < 32
        &&& self.rt < 32
        &&& self.imm < 0x1_0000
    }

    /// The word that holds this instruction.
    pub open spec fn encoding(self) -> u32 {
        (self.opcode * 0x400_0000 + self.rs * 0x20_0000 + self.rt * 0x1_0000 + self.imm) as u32
    }

    /// Packs the fields into a word.
    pub fn encode(&self) -> (word: u32)
        requires
            self.wf(),
        ensures
            word == self.encoding(),
    {
        let opcode: u32 = self.opcode;
        let rs: u32 = self.rs;
        let rt: u32 = self.rt;
        let imm: u32 = self.imm;
        assert((opcode << 26) | (rs << 21) | (rt << 16) | imm == opcode * 0x400_0000 + rs
            * 0x20_0000 + rt * 0x1_0000 + imm) by (bit_vector)
            requires
                opcode < 64,
                rs < 32,
                rt < 32,
                imm < 0x1_0000,
        ;
        (opcode << OPCODE_SHIFT) | (rs << RS_SHIFT) | (rt << RT_SHIFT) | imm
    }
}

impl RType {
    /// The fields fit their widths, the opcode is 0 and the function code
    /// is that of the operation.
    pub open spec fn wf(self) -> bool {
        &&& self.opcode == 0
        &&& self.funct == self.op.funct()
        &&& self.rs < 32
        &&& self.rt < 32
        &&& self.rd < 32
        &&& self.shamt < 32
    }

    /// The word that holds this instruction.
    pub open spec fn encoding(self) -> u32 {
        (self.opcode * 0x400_0000 + self.rs * 0x20_0000 + self.rt * 0x1_0000 + self.rd * 0x800
            + self.shamt * 0x40 + self.funct) as u32
    }

    /// Packs the fields into a word.
    pub fn encode(&self) -> (word: u32)
        requires
            self.wf(),
        ensures
            word == self.encoding(),
    {
        let rs: u32 = self.rs;
        let rt: u32 = self.rt;
        let rd: u32 = self.rd;
        let shamt: u32 = self.shamt;
        let funct: u32 = self.funct;
        assert((rs << 21) | (rt << 16) | (rd << 11) | (shamt << 6) | funct == rs * 0x20_0000 + rt
            * 0x1_0000 + rd * 0x800 + shamt * 0x40 + funct) by (bit_vector)
            requires
                rs < 32,
                rt < 32,
                rd < 32,
                shamt < 32,
                funct < 64,
        ;
        (rs << RS_SHIFT) | (rt << RT_SHIFT) | (rd << RD_SHIFT) | (shamt << SHAMT_SHIFT) | funct
    }
}

impl Instr {
    /// Well-formedness of the record inside.
    pub open spec fn wf(self) -> bool {
        match self {
            Instr::JType(j) => j.wf(),
            Instr::IType(i) => i.wf(),
            Instr::RType(r) => r.wf(),
        }
    }

    /// The word that holds this instruction.
    pub open spec fn encoding(self) -> u32 {
        match self {
            Instr::JType(j) => j.encoding(),
            Instr::IType(i) => i.encoding(),
            Instr::RType(r) => r.encoding(),
        }
    }

    /// Packs the fields into a word.
    pub fn encode(&self) -> (word: u32)
        requires
            self.wf(),
        ensures
            word == self.encoding(),
    {
        match self {
            Instr::JType(j) => j.encode(),
            Instr::IType(i) => i.encode(),
            Instr::RType(r) => r.encode(),
        }
    }
}

/// The J-form reading of a word under a given operation.
pub open spec fn jump_fields(word: u32, op: JOp) -> JType {
    JType { opcode: field_opcode(word), target: field_target(word), op }
}

/// The I-form reading of a word under a given operation.
pub open spec fn immediate_fields(word: u32, op: IOp) -> IType {
    IType {
        opcode: field_opcode(word),
        rs: field_rs(word),
        rt: field_rt(word),
        imm: field_imm(word),
        op,
    }
}

/// The R-form reading of a word under a given operation.
pub open spec fn register_fields(word: u32, op: ROp) -> RType {
    RType {
        opcode: 0,
        rs: field_rs(word),
        rt: field_rt(word),
        rd: field_rd(word),
        shamt: field_shamt(word),
        funct: field_funct(word),
        op,
    }
}

/// The REGIMM instruction in a word: the operation is the one that the `rt`
/// field selects.
pub open spec fn decode_regimm(word: u32) -> Result<IType, DecodeError> {
    match iop_with(0x01, field_rt(word)) {
        Some(op) => Ok(immediate_fields(word, op)),
        None => Err(DecodeError::UnknownOpcode),
    }
}

/// The R-form instruction in a word: the operation is the one with the
/// word's function code.
pub open spec fn decode_register(word: u32) -> Result<RType, DecodeError> {
    match rop_with(field_funct(word)) {
        Some(op) => Ok(register_fields(word, op)),
        None => Err(DecodeError::UnknownOpcode),
    }
}

/// The instruction that a word holds.
///
/// Primary opcode 0 is the R-form, 2 and 3 are the jumps, and every other
/// opcode is I-form or nothing.
pub open spec fn decode(word: u32) -> Result<Instr, DecodeError> {
    let opcode = field_opcode(word);
    if opcode == 0 {
        match decode_register(word) {
            Ok(r) => Ok(Instr::RType(r)),
            Err(e) => Err(e),
        }
    } else if let Some(op) = jop_with(opcode) {
        Ok(Instr::JType(jump_fields(word, op)))
    } else if let Some(op) = iop_with(opcode, field_rt(word)) {
        Ok(Instr::IType(immediate_fields(word, op)))
    } else {
        Err(DecodeError::UnknownOpcode)
    }
}

/// Masking and shifting pick the fields out of a word.
proof fn lemma_field_masks(word: u32)
    ensures
        (word & 0xFC000000) >> 26 == field_opcode(word),
        word & 0x3FFFFFF == field_target(word),
        (word & 0x3E00000) >> 21 == field_rs(word),
        (word & 0x1F0000) >> 16 == field_rt(word),
        (word & 0xF800) >> 11 == field_rd(word),
        (word & 0x7C0) >> 6 == field_shamt(word),
        word & 0x3F == field_funct(word),
        word & 0xFFFF == field_imm(word),
{
    assert((word & 0xFC000000) >> 26 == word / 0x400_0000 && word & 0x3FFFFFF == word
        % 0x400_0000 && (word & 0x3E00000) >> 21 == (word / 0x20_0000) % 32 && (word & 0x1F0000)
        >> 16 == (word / 0x1_0000) % 32 && (word & 0xF800) >> 11 == (word / 0x800) % 32 && (word
        & 0x7C0) >> 6 == (word / 0x40) % 32 && word & 0x3F == word % 0x40 && word & 0xFFFF == word
        % 0x1_0000) by (bit_vector);
}

/// A word is the sum of its fields, each at its position.
proof fn lemma_fields_compose(word: u32)
    by (bit_vector)
    ensures
        word == field_opcode(word) * 0x400_0000 + field_target(word),
        word == field_opcode(word) * 0x400_0000 + field_rs(word) * 0x20_0000 + field_rt(word)
            * 0x1_0000 + field_imm(word),
        word == field_opcode(word) * 0x400_0000 + field_rs(word) * 0x20_0000 + field_rt(word)
            * 0x1_0000 + field_rd(word) * 0x800 + field_shamt(word) * 0x40 + field_funct(word),
        field_opcode(word) < 64,
{
}

/// The fields of a J-form word are the values it was packed from.
proof fn lemma_jump_fields(opcode: u32, target: u32)
    requires
        opcode < 64,
        target < 0x400_0000,
    ensures
        field_opcode((opcode * 0x400_0000 + target) as u32) == opcode,
        field_target((opcode * 0x400_0000 + target) as u32) == target,
{
}

/// The fields of an I-form word are the values it was packed from.
proof fn lemma_immediate_fields(opcode: u32, rs: u32, rt: u32, imm: u32)
    by (bit_vector)
    requires
        opcode < 64,
        rs < 32,
        rt < 32,
        imm < 0x1_0000,
    ensures
        ({
            let word = (opcode * 0x400_0000 + rs * 0x20_0000 + rt * 0x1_0000 + imm) as u32;
            &&& field_opcode(word) == opcode
            &&& field_rs(word) == rs
            &&& field_rt(word) == rt
            &&& field_imm(word) == imm
        }),
{
}

/// The fields of an R-form word are the values it was packed from.
proof fn lemma_register_fields(rs: u32, rt: u32, rd: u32, shamt: u32, funct: u32)
    by (bit_vector)
    requires
        rs < 32,
        rt < 32,
        rd < 32,
        shamt < 32,
        funct < 64,
    ensures
        ({
            let word = (rs * 0x20_0000 + rt * 0x1_0000 + rd * 0x800 + shamt * 0x40 + funct) as u32;
            &&& field_opcode(word) == 0
            &&& field_rs(word) == rs
            &&& field_rt(word) == rt
            &&& field_rd(word) == rd
            &&& field_shamt(word) == shamt
            &&& field_funct(word) == funct
        }),
{
}

/// Decoding the word of a well-formed instruction gives the instruction
/// back: operation and every field.
pub proof fn lemma_decode_encoding(instr: Instr)
    requires
        instr.wf(),
    ensures
        decode(instr.encoding()) == Ok::<Instr, DecodeError>(instr),
{
    match instr {
        Instr::JType(j) => {
            lemma_jump_fields(j.opcode, j.target);
            assert(j.op.code() == j.opcode);
        },
        Instr::IType(i) => {
            lemma_immediate_fields(i.opcode, i.rs, i.rt, i.imm);
            assert(i.op.matches_fields(i.opcode, i.rt));
            assert(jop_with(i.opcode) is None);
        },
        Instr::RType(r) => {
            lemma_register_fields(r.rs, r.rt, r.rd, r.shamt, r.funct);
            assert(r.op.funct() == r.funct);
        },
    }
}

/// Whatever a word decodes to is well-formed and is held by that word, so
/// that no two words decode to the same instruction.
pub proof fn lemma_encoding_decode(word: u32)
    ensures
        decode(word) matches Ok(instr) ==> instr.wf() && instr.encoding() == word,
{
    lemma_fields_compose(word);
}

/// The words that decode are the words of the well-formed instructions.
pub proof fn lemma_decodable(word: u32)
    ensures
        decode(word) is Ok <==> exists|instr: Instr| instr.wf() && #[trigger] instr.encoding()
            == word,
{
    lemma_encoding_decode(word);
    if decode(word) is Ok {
        let instr = decode(word).unwrap();
        assert(instr.wf() && instr.encoding() == word);
    }
    if exists|instr: Instr| instr.wf() && #[trigger] instr.encoding() == word {
        let instr = choose|instr: Instr| instr.wf() && #[trigger] instr.encoding() == word;
        lemma_decode_encoding(instr);
    }
}

/// Extracts the primary opcode, the top six bits.
pub fn extract_opcode(instr: u32) -> (opcode: u32)
    ensures
        opcode == field_opcode(instr),
{
    proof {
        lemma_field_masks(instr);
    }
    (instr & OPCODE_MASK) >> OPCODE_SHIFT
}

/// Decodes one instruction word.
pub fn parse_instr(instr: u32) -> (r: Result<Instr, DecodeError>)
    ensures
        r == decode(instr),
{
    let opcode: u32 = extract_opcode(instr);
    proof {
        lemma_field_masks(instr);
    }
    match opcode {
        0x2 => {
            assert(JOp::J.code() == opcode);
            Ok(Instr::JType(parse_jump_instr(instr, JOp::J)))
        },
        0x3 => {
            assert(JOp::JAL.code() == opcode);
            Ok(Instr::JType(parse_jump_instr(instr, JOp::JAL)))
        },
        0x4 => Ok(Instr::IType(parse_direct(instr, IOp::BEQ))),
        0x5 => Ok(Instr::IType(parse_direct(instr, IOp::BNE))),
        0x6 => Ok(Instr::IType(parse_direct(instr, IOp::BLEZ))),
        0x7 => Ok(Instr::IType(parse_direct(instr, IOp::BGTZ))),
        0x8 => Ok(Instr::IType(parse_direct(instr, IOp::ADDI))),
        0x9 => Ok(Instr::IType(parse_direct(instr, IOp::ADDIU))),
        0xA => Ok(Instr::IType(parse_direct(instr, IOp::SLTI))),
        0xB => Ok(Instr::IType(parse_direct(instr, IOp::SLTIU))),
        0xC => Ok(Instr::IType(parse_direct(instr, IOp::ANDI))),
        0xD => Ok(Instr::IType(parse_direct(instr, IOp::ORI))),
        0xE => Ok(Instr::IType(parse_direct(instr, IOp::XORI))),
        0xF => Ok(Instr::IType(parse_direct(instr, IOp::LUI))),
        0x20 => Ok(Instr::IType(parse_direct(instr, IOp::LB))),
        0x21 => Ok(Instr::IType(parse_direct(instr, IOp::LH))),
        0x23 => Ok(Instr::IType(parse_direct(instr, IOp::LW))),
        0x24 => Ok(Instr::IType(parse_direct(instr, IOp::LBU))),
        0x25 => Ok(Instr::IType(parse_direct(instr, IOp::LHU))),
        0x28 => Ok(Instr::IType(parse_direct(instr, IOp::SB))),
        0x29 => Ok(Instr::IType(parse_direct(instr, IOp::SH))),
        0x2B => Ok(Instr::IType(parse_direct(instr, IOp::SW))),
        0x1 => {
            assert(jop_with(opcode) is None);
            match parse_immediate_instr_and_op(instr) {
                Ok(i) => Ok(Instr::IType(i)),
                Err(e) => Err(e),
            }
        },
        0x0 => match parse_register_instr(instr) {
            Ok(r) => Ok(Instr::RType(r)),
            Err(e) => Err(e),
        },
        _ => {
            assert(jop_with(opcode) is None);
            assert(iop_with(opcode, field_rt(instr)) is None);
            Err(DecodeError::UnknownOpcode)
        },
    }
}

/// Reads a word as an I-form instruction whose operation the primary opcode
/// alone decides.
fn parse_direct(instr: u32, op: IOp) -> (r: IType)
    requires
        op.code() == field_opcode(instr),
        op.selector() is None,
    ensures
        r == immediate_fields(instr, op),
        jop_with(field_opcode(instr)) is None,
        iop_with(field_opcode(instr), field_rt(instr)) == Some(op),
{
    assert(op.matches_fields(field_opcode(instr), field_rt(instr)));
    parse_immediate_instr(instr, op)
}

/// Reads a word as a J-form instruction with the given operation.
pub fn parse_jump_instr(instr: u32, op: JOp) -> (r: JType)
    ensures
        r == jump_fields(instr, op),
{
    proof {
        lemma_field_masks(instr);
    }
    JType { opcode: extract_opcode(instr), target: instr & TARGET_MASK, op }
}

/// Reads a word as an I-form instruction with the given operation.
pub fn parse_immediate_instr(instr: u32, op: IOp) -> (r: IType)
    ensures
        r == immediate_fields(instr, op),
{
    proof {
        lemma_field_masks(instr);
    }
    let rs: u32 = (instr & RS_MASK) >> RS_SHIFT;
    let rt: u32 = (instr & RT_MASK) >> RT_SHIFT;
    let imm: u32 = instr & IMM_MASK;
    IType { rs, rt, imm, opcode: extract_opcode(instr), op }
}

/// Reads a word as a REGIMM instruction; the `rt` field selects the branch.
pub fn parse_immediate_instr_and_op(instr: u32) -> (r: Result<IType, DecodeError>)
    ensures
        r == decode_regimm(instr),
{
    proof {
        lemma_field_masks(instr);
    }
    let rs: u32 = (instr & RS_MASK) >> RS_SHIFT;
    let rt: u32 = (instr & RT_MASK) >> RT_SHIFT;
    let imm: u32 = instr & IMM_MASK;
    let op: IOp = match rt {
        0x0 => IOp::BLTZ,
        0x1 => IOp::BGEZ,
        0x10 => IOp::BLTZAL,
        0x11 => IOp::BGEZAL,
        _ => {
            assert(iop_with(0x01, rt) is None);
            return Err(DecodeError::UnknownOpcode);
        },
    };
    assert(op.matches_fields(0x01, rt));
    Ok(IType { rs, rt, imm, opcode: extract_opcode(instr), op })
}

/// Reads a word as an R-form instruction; the function code selects the
/// operation.
pub fn parse_register_instr(instr: u32) -> (r: Result<RType, DecodeError>)
    requires
        field_opcode(instr) == 0,
    ensures
        r == decode_register(instr),
{
    proof {
        lemma_field_masks(instr);
    }
    let rs: u32 = (instr & RS_MASK) >> RS_SHIFT;
    let rt: u32 = (instr & RT_MASK) >> RT_SHIFT;
    let rd: u32 = (instr & RD_MASK) >> RD_SHIFT;
    let shamt: u32 = (instr & SHAMT_MASK) >> SHAMT_SHIFT;
    let funct: u32 = instr & FUNCT_MASK;
    let op: ROp = match funct {
        0x0 => ROp::SLL,
        0x2 => ROp::SRL,
        0x3 => ROp::SRA,
        0x4 => ROp::SLLV,
        0x6 => ROp::SRLV,
        0x7 => ROp::SRAV,
        0x8 => ROp::JR,
        0x9 => ROp::JALR,
        0x20 => ROp::ADD,
        0x21 => ROp::ADDU,
        0x22 => ROp::SUB,
        0x23 => ROp::SUBU,
        0x24 => ROp::AND,
        0x25 => ROp::OR,
        0x26 => ROp::XOR,
        0x27 => ROp::NOR,
        0x2A => ROp::SLT,
        0x2B => ROp::SLTU,
        0x18 => ROp::MULT,
        0x19 => ROp::MULTU,
        0x1A => ROp::DIV,
        0x1B => ROp::DIVU,
        0x10 => ROp::MFHI,
        0x12 => ROp::MFLO,
        0x11 => ROp::MTHI,
        0x13 => ROp::MTLO,
        0xC => ROp::SYSCALL,
        _ => {
            assert(rop_with(funct) is None);
            return Err(DecodeError::UnknownOpcode);
        },
    };
    assert(op.funct() == funct);
    Ok(RType { opcode: 0, rs, rt, rd, shamt, funct, op })
}

} // verus!
