//! The machine: two register snapshots, a memory, and the cycle that
//! drives them.

use crate::dump::{
    memory_text, push_memory, push_registers, register_text, MemoryLine, RegisterDump,
};
use crate::instr::{
    lemma_encoding_decode, parse_instr, IOp, IType, Instr, JOp, JType, ROp, RType,
};
use crate::isa::{
    affordable, execute, fault, itype_effect, itype_outcome, jtype_effect, lemma_run_next,
    lemma_run_split, lemma_step, rtype_advances, rtype_effect, run, step, CpuView, HaltCause,
    MachineView, EXIT_SERVICE, LINK_REG, MIPS_REGS, SERVICE_REG,
};
use crate::loader::{
    lemma_load_past_text, load_image, load_images, load_prefix, padded_len, reversed_word,
};
use crate::memory::{
    byte_at, half_at, le_bytes16, le_bytes32, mapped, span_mapped, word_at, write_at,
    zero_memory, Memory, MEM_TEXT_SIZE, MEM_TEXT_START,
};
use crate::word::{
    add_signed, add_words, div_signed, div_unsigned, mul_signed, mul_unsigned,
    shift_right_arithmetic, sign_extend32, sub_words, to_signed, to_word,
};
use vstd::prelude::*;

verus! {

const TOP_BYTE_MASK: u32 = 0xF0000000;

const SHIFT_MASK: u32 = 0x1F;

const BYTE_MASK: u32 = 0xFF;

const HALF_MASK: u32 = 0xFFFF;

/// One snapshot of the architectural registers: the program counter, the
/// 32 general registers, HI and LO.
#[derive(Clone, Copy)]
pub struct CpuState {
    pc: u32,
    regs: [u32; MIPS_REGS],
    hi: u32,
    lo: u32,
}

/// A machine: the snapshot that instructions read, the snapshot that they
/// write, the cause of a halt if there was one, the count of committed
/// instructions, and the memory.
pub struct MipsComputer {
    curr_state: CpuState,
    next_state: CpuState,
    halted: Option<HaltCause>,
    instr_cnt: u64,
    memory: Memory,
}

impl View for CpuState {
    type V = CpuView;

    closed spec fn view(&self) -> CpuView {
        CpuView { pc: self.pc, regs: self.regs@, hi: self.hi, lo: self.lo }
    }
}

impl CpuState {
    /// Every snapshot has its 32 registers.
    pub proof fn lemma_view(&self)
        ensures
            self@.wf(),
    {
    }

    /// A snapshot with every register zero.
    pub fn new() -> (state: Self)
        ensures
            state@ == reset_cpu(0),
    {
        let state = Self { pc: 0, regs: [0; MIPS_REGS], hi: 0, lo: 0 };
        assert(state.regs@ =~= reset_cpu(0).regs);
        state
    }

    /// The program counter.
    pub fn pc(&self) -> (pc: u32)
        ensures
            pc == self@.pc,
    {
        self.pc
    }

    /// The HI register.
    pub fn hi(&self) -> (hi: u32)
        ensures
            hi == self@.hi,
    {
        self.hi
    }

    /// The LO register.
    pub fn lo(&self) -> (lo: u32)
        ensures
            lo == self@.lo,
    {
        self.lo
    }

    /// The value of a general register, or nothing where there is no
    /// register of that number.
    pub fn reg(&self, reg: usize) -> (value: Option<u32>)
        ensures
            value == (if reg < MIPS_REGS {
                Some(self@.regs[reg as int])
            } else {
                None
            }),
    {
        if reg < MIPS_REGS {
            Some(self.regs[reg])
        } else {
            None
        }
    }

    /// Sets the program counter.
    pub fn set_pc(&mut self, val: u32)
        ensures
            final(self)@ == old(self)@.with_pc(val),
    {
        self.pc = val;
    }

    /// Sets the HI register.
    pub fn set_hi(&mut self, val: u32)
        ensures
            final(self)@ == old(self)@.with_hi_lo(val, old(self)@.lo),
    {
        self.hi = val;
    }

    /// Sets the LO register.
    pub fn set_lo(&mut self, val: u32)
        ensures
            final(self)@ == old(self)@.with_hi_lo(old(self)@.hi, val),
    {
        self.lo = val;
    }

    /// Sets a general register. Says whether there is a register of that
    /// number; where there is none, nothing changes.
    pub fn set_reg(&mut self, reg: usize, val: u32) -> (known: bool)
        ensures
            known == (reg < MIPS_REGS),
            known ==> final(self)@ == old(self)@.with_reg(reg as int, val),
            !known ==> final(self)@ == old(self)@,
    {
        if reg < MIPS_REGS {
            self.regs[reg] = val;
            true
        } else {
            false
        }
    }
}

/// The views of a list of images.
pub open spec fn image_views(images: Seq<Vec<u8>>) -> Seq<Seq<u8>> {
    Seq::new(images.len(), |i: int| images[i]@)
}

/// A snapshot with every register zero but the program counter.
pub open spec fn reset_cpu(pc: u32) -> CpuView {
    CpuView { pc, regs: Seq::new(MIPS_REGS as nat, |i: int| 0u32), hi: 0, lo: 0 }
}

/// The machine as it is built from program images: the images lie in
/// TEXT, one after the other; the program counter points at the start of
/// TEXT if there is an image, else it is zero; `next` mirrors `current`;
/// nothing has been counted and the machine runs.
pub open spec fn initial(images: Seq<Seq<u8>>) -> MachineView {
    let cpu = reset_cpu(
        if images.len() > 0 {
            MEM_TEXT_START
        } else {
            0
        },
    );
    MachineView {
        current: cpu,
        next: cpu,
        halted: None,
        instr_count: 0,
        memory: load_images(zero_memory(), 0, images),
    }
}

/// The number of lines of a memory dump from `start` to `stop`: one for
/// every fourth address, both ends counted.
pub open spec fn dump_len(start: u32, stop: u32) -> nat {
    if start <= stop {
        ((stop - start) / 4 + 1) as nat
    } else {
        0
    }
}

/// The lines of a memory dump from `start` to `stop`.
pub open spec fn dump_lines(mem: Map<int, u8>, start: u32, stop: u32) -> Seq<MemoryLine> {
    Seq::new(
        dump_len(start, stop),
        |k: int|
            MemoryLine {
                address: (start + 4 * k) as u32,
                value: word_at(mem, (start + 4 * k) as u32),
            },
    )
}

impl View for MipsComputer {
    type V = MachineView;

    closed spec fn view(&self) -> MachineView {
        MachineView {
            current: self.curr_state@,
            next: self.next_state@,
            halted: self.halted,
            instr_count: self.instr_cnt as nat,
            memory: self.memory@,
        }
    }
}

impl MipsComputer {
    /// The view of every machine is well-formed, and its instruction count
    /// fits in 64 bits.
    pub proof fn lemma_view(&self)
        ensures
            self@.wf(),
            self@.instr_count <= u64::MAX,
    {
        self.memory.lemma_domain();
    }

    /// A machine with the given program images loaded: each image is a
    /// sequence of big-endian instruction words, and the images lie in
    /// TEXT one after the other.
    pub fn new(images: &[Vec<u8>]) -> (comp: Self)
        ensures
            comp@ == initial(image_views(images@)),
    {
        let mut comp = Self {
            curr_state: CpuState::new(),
            next_state: CpuState::new(),
            halted: None,
            instr_cnt: 0,
            memory: Memory::new(),
        };
        let ghost views = image_views(images@);
        let ghost empty = comp.memory@;
        let ghost mut place: int = 0;
        let mut offset: u32 = 0;
        let mut i: usize = 0;
        assert(views.skip(0) =~= views);
        while i < images.len()
            invariant
                i <= images.len(),
                views == image_views(images@),
                offset <= MEM_TEXT_SIZE,
                offset % 4 == 0,
                place % 4 == 0,
                offset == (if place <= MEM_TEXT_SIZE {
                    place
                } else {
                    MEM_TEXT_SIZE as int
                }),
                load_images(empty, 0, views) == load_images(
                    comp@.memory,
                    place,
                    views.skip(i as int),
                ),
                comp@.current == reset_cpu(
                    if i > 0 {
                        MEM_TEXT_START
                    } else {
                        0
                    },
                ),
                comp@.next == reset_cpu(0),
                comp@.halted is None,
                comp@.instr_count == 0,
            decreases images.len() - i,
        {
            proof {
                let rest = views.skip(i as int);
                assert(rest[0] == images@[i as int]@);
                assert(rest.drop_first() =~= views.skip(i + 1));
                if place >= MEM_TEXT_SIZE {
                    lemma_load_past_text(comp@.memory, place, rest[0]);
                    lemma_load_past_text(comp@.memory, offset as int, rest[0]);
                }
                place = place + padded_len(rest[0]);
            }
            offset = comp.load_program(images[i].as_slice(), offset);
            i += 1;
        }
        assert(views.skip(i as int).len() == 0);
        comp.next_state = comp.curr_state;
        comp
    }

    /// Stores one image in TEXT, `offset` bytes into it, and points the
    /// program counter of `current` at the start of TEXT. Returns the
    /// offset at which the next image goes.
    fn load_program(&mut self, image: &[u8], offset: u32) -> (end: u32)
        requires
            offset <= MEM_TEXT_SIZE,
            offset % 4 == 0,
        ensures
            final(self)@ == (MachineView {
                memory: load_image(old(self)@.memory, offset as int, image@),
                current: old(self)@.current.with_pc(MEM_TEXT_START),
                ..old(self)@
            }),
            end == (if offset + padded_len(image@) <= MEM_TEXT_SIZE {
                offset + padded_len(image@)
            } else {
                MEM_TEXT_SIZE as int
            }),
    {
        let mut off: u32 = offset;
        let mut pos: usize = 0;
        proof {
            self.memory.lemma_domain();
            assert(self@.memory =~= load_prefix(old(self)@.memory, offset as int, image@, 0));
        }
        while pos < image.len() && off < MEM_TEXT_SIZE
            invariant
                off == offset + pos,
                off <= MEM_TEXT_SIZE,
                off % 4 == 0,
                pos % 4 == 0,
                pos <= padded_len(image@),
                self@ == (MachineView {
                    memory: load_prefix(old(self)@.memory, offset as int, image@, pos as int),
                    ..old(self)@
                }),
            decreases padded_len(image@) - pos,
        {
            let buf: [u8; 4] = reversed_word(image, pos);
            let ghost before = self@.memory;
            proof {
                self.memory.lemma_domain();
            }
            self.mem_write_bytes(MEM_TEXT_START + off, buf.as_slice());
            assert(self@.memory =~= load_prefix(
                old(self)@.memory,
                offset as int,
                image@,
                pos + 4,
            ));
            off += 4;
            pos += 4;
        }
        assert(self@.memory =~= load_image(old(self)@.memory, offset as int, image@));
        self.curr_state.pc = MEM_TEXT_START;
        off
    }

    /// Reads a word, least significant byte at the lowest address.
    pub fn mem_read_32(&self, address: u32) -> (r: Option<u32>)
        ensures
            r == word_at(self@.memory, address),
    {
        self.memory.read_32(address)
    }

    /// Reads a half-word, least significant byte at the lowest address.
    pub fn mem_read_16(&self, address: u32) -> (r: Option<u16>)
        ensures
            r == half_at(self@.memory, address),
    {
        self.memory.read_16(address)
    }

    /// Reads a byte.
    pub fn mem_read_8(&self, address: u32) -> (r: Option<u8>)
        ensures
            r == byte_at(self@.memory, address),
    {
        self.memory.read_8(address)
    }

    /// Writes a word, least significant byte at the lowest address.
    /// Nothing is written unless all four bytes lie in one region.
    pub fn mem_write_32(&mut self, address: u32, value: u32) -> (written: bool)
        ensures
            written == span_mapped(address as int, 4),
            final(self)@ == (MachineView {
                memory: write_at(old(self)@.memory, address, le_bytes32(value)),
                ..old(self)@
            }),
    {
        self.memory.write_32(address, value)
    }

    /// Writes a half-word, least significant byte at the lowest address.
    /// Nothing is written unless both bytes lie in one region.
    pub fn mem_write_16(&mut self, address: u32, value: u16) -> (written: bool)
        ensures
            written == span_mapped(address as int, 2),
            final(self)@ == (MachineView {
                memory: write_at(old(self)@.memory, address, le_bytes16(value)),
                ..old(self)@
            }),
    {
        self.memory.write_16(address, value)
    }

    /// Writes a byte, if the address is mapped.
    pub fn mem_write_8(&mut self, address: u32, value: u8) -> (written: bool)
        ensures
            written == mapped(address as int),
            final(self)@ == (MachineView {
                memory: write_at(old(self)@.memory, address, seq![value]),
                ..old(self)@
            }),
    {
        self.memory.write_8(address, value)
    }

    /// Writes bytes from `address` on, lowest address first. Nothing is
    /// written unless `address` is mapped and the bytes end within its
    /// region.
    pub fn mem_write_bytes(&mut self, address: u32, bytes: &[u8]) -> (written: bool)
        ensures
            written == span_mapped(address as int, bytes@.len() as int),
            final(self)@ == (MachineView {
                memory: write_at(old(self)@.memory, address, bytes@),
                ..old(self)@
            }),
    {
        self.memory.write_bytes(address, bytes)
    }

    /// Executes a J-form instruction on `next`. Returns whether the
    /// program counter is still to be advanced, which it never is.
    pub fn process_jtype_instruction(&mut self, instr: &JType) -> (advance_pc: bool)
        ensures
            !advance_pc,
            final(self)@ == jtype_effect(old(self)@, *instr),
    {
        match instr.op {
            JOp::J => {
                let top_byte: u32 = self.curr_state.pc & TOP_BYTE_MASK;
                self.next_state.pc = top_byte | (instr.target << 2);
                false
            },
            JOp::JAL => {
                let top_byte: u32 = self.curr_state.pc & TOP_BYTE_MASK;
                self.next_state.pc = top_byte | (instr.target << 2);
                self.next_state.regs[LINK_REG] = add_words(self.curr_state.pc, 4);
                false
            },
        }
    }

    /// Executes an R-form instruction: reads `current`, writes `next`.
    /// Returns whether the program counter is still to be advanced.
    pub fn process_rtype_instruction(&mut self, instr: &RType) -> (advance_pc: bool)
        requires
            instr.wf(),
        ensures
            advance_pc == rtype_advances(*instr),
            final(self)@ == rtype_effect(old(self)@, *instr),
    {
        let rs: u32 = self.curr_state.regs[instr.rs as usize];
        let rt: u32 = self.curr_state.regs[instr.rt as usize];
        let rd: usize = instr.rd as usize;
        assert(rs & 0x1F < 32) by (bit_vector);
        match instr.op {
            ROp::SLL => {
                self.next_state.regs[rd] = rt << instr.shamt;
                true
            },
            ROp::SRL => {
                self.next_state.regs[rd] = rt >> instr.shamt;
                true
            },
            ROp::SRA => {
                self.next_state.regs[rd] = shift_right_arithmetic(rt, instr.shamt);
                true
            },
            ROp::SLLV => {
                let shift: u32 = rs & SHIFT_MASK;
                self.next_state.regs[rd] = rt << shift;
                true
            },
            ROp::SRLV => {
                let shift: u32 = rs & SHIFT_MASK;
                self.next_state.regs[rd] = rt >> shift;
                true
            },
            ROp::SRAV => {
                let shift: u32 = rs & SHIFT_MASK;
                self.next_state.regs[rd] = shift_right_arithmetic(rt, shift);
                true
            },
            ROp::JR => {
                self.next_state.pc = rs;
                false
            },
            ROp::JALR => {
                self.next_state.regs[rd] = add_words(self.curr_state.pc, 4);
                self.next_state.pc = rs;
                false
            },
            ROp::ADD | ROp::ADDU => {
                self.next_state.regs[rd] = add_words(rs, rt);
                true
            },
            ROp::SUB | ROp::SUBU => {
                self.next_state.regs[rd] = sub_words(rs, rt);
                true
            },
            ROp::AND => {
                self.next_state.regs[rd] = rs & rt;
                true
            },
            ROp::OR => {
                self.next_state.regs[rd] = rs | rt;
                true
            },
            ROp::XOR => {
                self.next_state.regs[rd] = rs ^ rt;
                true
            },
            ROp::NOR => {
                self.next_state.regs[rd] = !(rs | rt);
                true
            },
            ROp::SLT => {
                if to_signed(rs) < to_signed(rt) {
                    self.next_state.regs[rd] = 1;
                } else {
                    self.next_state.regs[rd] = 0;
                }
                true
            },
            ROp::SLTU => {
                if rs < rt {
                    self.next_state.regs[rd] = 1;
                } else {
                    self.next_state.regs[rd] = 0;
                }
                true
            },
            ROp::MULT => {
                let (hi, lo) = mul_signed(rs, rt);
                self.next_state.hi = hi;
                self.next_state.lo = lo;
                true
            },
            ROp::MULTU => {
                let (hi, lo) = mul_unsigned(rs, rt);
                self.next_state.hi = hi;
                self.next_state.lo = lo;
                true
            },
            ROp::DIV => {
                if rt != 0 {
                    let (quotient, remainder) = div_signed(rs, rt);
                    self.next_state.hi = remainder;
                    self.next_state.lo = quotient;
                }
                true
            },
            ROp::DIVU => {
                if rt != 0 {
                    let (quotient, remainder) = div_unsigned(rs, rt);
                    self.next_state.hi = remainder;
                    self.next_state.lo = quotient;
                }
                true
            },
            ROp::MFHI => {
                self.next_state.regs[rd] = self.curr_state.hi;
                true
            },
            ROp::MFLO => {
                self.next_state.regs[rd] = self.curr_state.lo;
                true
            },
            ROp::MTHI => {
                self.next_state.hi = rs;
                true
            },
            ROp::MTLO => {
                self.next_state.lo = rs;
                true
            },
            ROp::SYSCALL => {
                if self.curr_state.regs[SERVICE_REG] == EXIT_SERVICE {
                    self.halted = Some(HaltCause::ExitRequested);
                }
                true
            },
        }
    }

    /// Executes an I-form instruction: reads `current`, writes `next` or
    /// the memory. Returns whether the program counter is still to be
    /// advanced, or the fault of a load or store that no region serves; a
    /// faulting instruction changes nothing.
    pub fn process_itype_instruction(&mut self, instr: &IType) -> (r: Result<bool, HaltCause>)
        requires
            instr.wf(),
        ensures
            r == itype_outcome(old(self)@, *instr),
            final(self)@ == itype_effect(old(self)@, *instr),
    {
        let rs: u32 = self.curr_state.regs[instr.rs as usize];
        let rt_val: u32 = self.curr_state.regs[instr.rt as usize];
        let rt: usize = instr.rt as usize;
        assert(rt_val & 0xFF == rt_val % 0x100 && rt_val & 0xFFFF == rt_val % 0x1_0000)
            by (bit_vector);
        match instr.op {
            IOp::BEQ => {
                let ext_off: i32 = sign_extend32(instr.imm << 2, 18);
                let new_addr: u32 = add_signed(self.curr_state.pc, ext_off);
                if rs == rt_val {
                    self.next_state.pc = new_addr;
                    return Ok(false);
                }
                Ok(true)
            },
            IOp::BNE => {
                let ext_off: i32 = sign_extend32(instr.imm << 2, 18);
                let new_addr: u32 = add_signed(self.curr_state.pc, ext_off);
                if rs != rt_val {
                    self.next_state.pc = new_addr;
                    return Ok(false);
                }
                Ok(true)
            },
            IOp::BLEZ => {
                let ext_off: i32 = sign_extend32(instr.imm << 2, 18);
                let new_addr: u32 = add_signed(self.curr_state.pc, ext_off);
                let val: i32 = to_signed(rs);
                if val <= 0 {
                    self.next_state.pc = new_addr;
                    return Ok(false);
                }
                Ok(true)
            },
            IOp::BGEZ => {
                let ext_off: i32 = sign_extend32(instr.imm << 2, 18);
                let new_addr: u32 = add_signed(self.curr_state.pc, ext_off);
                let val: i32 = to_signed(rs);
                if val >= 0 {
                    self.next_state.pc = new_addr;
                    return Ok(false);
                }
                Ok(true)
            },
            IOp::BGTZ => {
                let ext_off: i32 = sign_extend32(instr.imm << 2, 18);
                let new_addr: u32 = add_signed(self.curr_state.pc, ext_off);
                let val: i32 = to_signed(rs);
                if val > 0 {
                    self.next_state.pc = new_addr;
                    return Ok(false);
                }
                Ok(true)
            },
            IOp::BLTZ => {
                let ext_off: i32 = sign_extend32(instr.imm << 2, 18);
                let new_addr: u32 = add_signed(self.curr_state.pc, ext_off);
                let val: i32 = to_signed(rs);
                if val < 0 {
                    self.next_state.pc = new_addr;
                    return Ok(false);
                }
                Ok(true)
            },
            IOp::BLTZAL => {
                let ext_off: i32 = sign_extend32(instr.imm << 2, 18);
                let new_addr: u32 = add_signed(self.curr_state.pc, ext_off);
                let val: i32 = to_signed(rs);
                self.next_state.regs[LINK_REG] = add_words(self.curr_state.pc, 4);
                if val < 0 {
                    self.next_state.pc = new_addr;
                    return Ok(false);
                }
                Ok(true)
            },
            IOp::BGEZAL => {
                let ext_off: i32 = sign_extend32(instr.imm << 2, 18);
                let new_addr: u32 = add_signed(self.curr_state.pc, ext_off);
                let val: i32 = to_signed(rs);
                self.next_state.regs[LINK_REG] = add_words(self.curr_state.pc, 4);
                if val >= 0 {
                    self.next_state.pc = new_addr;
                    return Ok(false);
                }
                Ok(true)
            },
            IOp::ADDI | IOp::ADDIU => {
                let signed_imm: i32 = sign_extend32(instr.imm, 16);
                self.next_state.regs[rt] = add_signed(rs, signed_imm);
                Ok(true)
            },
            IOp::SLTI => {
                let signed_imm: i32 = sign_extend32(instr.imm, 16);
                if to_signed(rs) < signed_imm {
                    self.next_state.regs[rt] = 1;
                } else {
                    self.next_state.regs[rt] = 0;
                }
                Ok(true)
            },
            IOp::SLTIU => {
                let signed_imm: i32 = sign_extend32(instr.imm, 16);
                if rs < to_word(signed_imm) {
                    self.next_state.regs[rt] = 1;
                } else {
                    self.next_state.regs[rt] = 0;
                }
                Ok(true)
            },
            IOp::ANDI => {
                self.next_state.regs[rt] = rs & instr.imm;
                Ok(true)
            },
            IOp::ORI => {
                self.next_state.regs[rt] = rs | instr.imm;
                Ok(true)
            },
            IOp::XORI => {
                self.next_state.regs[rt] = rs ^ instr.imm;
                Ok(true)
            },
            IOp::LUI => {
                self.next_state.regs[rt] = instr.imm << 16;
                Ok(true)
            },
            IOp::LB => {
                let offset: i32 = sign_extend32(instr.imm, 16);
                let address: u32 = add_signed(rs, offset);
                match self.mem_read_8(address) {
                    Some(data) => {
                        self.next_state.regs[rt] = to_word(sign_extend32(data as u32, 8));
                        Ok(true)
                    },
                    None => Err(HaltCause::LoadOutsideMemory(address)),
                }
            },
            IOp::LH => {
                let offset: i32 = sign_extend32(instr.imm, 16);
                let address: u32 = add_signed(rs, offset);
                match self.mem_read_16(address) {
                    Some(data) => {
                        self.next_state.regs[rt] = to_word(sign_extend32(data as u32, 16));
                        Ok(true)
                    },
                    None => Err(HaltCause::LoadOutsideMemory(address)),
                }
            },
            IOp::LW => {
                let offset: i32 = sign_extend32(instr.imm, 16);
                let address: u32 = add_signed(rs, offset);
                match self.mem_read_32(address) {
                    Some(data) => {
                        self.next_state.regs[rt] = data;
                        Ok(true)
                    },
                    None => Err(HaltCause::LoadOutsideMemory(address)),
                }
            },
            IOp::LBU => {
                let offset: i32 = sign_extend32(instr.imm, 16);
                let address: u32 = add_signed(rs, offset);
                match self.mem_read_8(address) {
                    Some(data) => {
                        self.next_state.regs[rt] = data as u32;
                        Ok(true)
                    },
                    None => Err(HaltCause::LoadOutsideMemory(address)),
                }
            },
            IOp::LHU => {
                let offset: i32 = sign_extend32(instr.imm, 16);
                let address: u32 = add_signed(rs, offset);
                match self.mem_read_16(address) {
                    Some(data) => {
                        self.next_state.regs[rt] = data as u32;
                        Ok(true)
                    },
                    None => Err(HaltCause::LoadOutsideMemory(address)),
                }
            },
            IOp::SB => {
                let offset: i32 = sign_extend32(instr.imm, 16);
                let address: u32 = add_signed(rs, offset);
                if self.mem_write_8(address, (rt_val & BYTE_MASK) as u8) {
                    Ok(true)
                } else {
                    Err(HaltCause::StoreOutsideMemory(address))
                }
            },
            IOp::SH => {
                let offset: i32 = sign_extend32(instr.imm, 16);
                let address: u32 = add_signed(rs, offset);
                if self.mem_write_16(address, (rt_val & HALF_MASK) as u16) {
                    Ok(true)
                } else {
                    Err(HaltCause::StoreOutsideMemory(address))
                }
            },
            IOp::SW => {
                let offset: i32 = sign_extend32(instr.imm, 16);
                let address: u32 = add_signed(rs, offset);
                if self.mem_write_32(address, rt_val) {
                    Ok(true)
                } else {
                    Err(HaltCause::StoreOutsideMemory(address))
                }
            },
        }
    }

    /// Fetches the word at the program counter of `current`, decodes it
    /// and executes the instruction on `next`, advancing the program
    /// counter where the instruction leaves that to be done. Returns
    /// whether the instruction ran to its end; where it did not, the
    /// machine is halted with the cause and is otherwise unchanged.
    pub fn process_instruction(&mut self) -> (executed: bool)
        ensures
            executed == (fault(old(self)@) is None),
            executed ==> final(self)@ == execute(old(self)@),
            !executed ==> final(self)@ == old(self)@.halt(fault(old(self)@).unwrap()),
    {
        match self.mem_read_32(self.curr_state.pc) {
            None => {
                self.halted = Some(HaltCause::FetchOutsideMemory);
                false
            },
            Some(word) => {
                if word == 0 {
                    self.halted = Some(HaltCause::ZeroWord);
                    false
                } else {
                    match parse_instr(word) {
                        Err(_) => {
                            self.halted = Some(HaltCause::UnknownOpcode);
                            false
                        },
                        Ok(instr) => {
                            proof {
                                lemma_encoding_decode(word);
                            }
                            let result: Result<bool, HaltCause> = match instr {
                                Instr::JType(instr) => Ok(self.process_jtype_instruction(&instr)),
                                Instr::IType(instr) => self.process_itype_instruction(&instr),
                                Instr::RType(instr) => Ok(self.process_rtype_instruction(&instr)),
                            };
                            match result {
                                Ok(incr_pc) => {
                                    if incr_pc {
                                        self.next_state.pc = add_words(self.curr_state.pc, 4);
                                    }
                                    true
                                },
                                Err(cause) => {
                                    self.halted = Some(cause);
                                    false
                                },
                            }
                        },
                    }
                }
            },
        }
    }

    /// One cycle: executes the instruction at the program counter and
    /// commits, that is, copies `next` over `current`, forces register 0
    /// of `current` to zero and counts the instruction. A cycle that halts
    /// before the instruction has run to its end commits nothing.
    pub fn cycle(&mut self)
        requires
            old(self)@.instr_count < u64::MAX,
        ensures
            final(self)@ == step(old(self)@),
    {
        proof {
            reveal(step);
        }
        if self.process_instruction() {
            self.curr_state = self.next_state;
            self.curr_state.regs[0] = 0;
            self.instr_cnt += 1;
        }
    }

    /// Executes up to `num_cycles` cycles, stopping early once the machine
    /// has halted.
    pub fn run(&mut self, num_cycles: u32)
        ensures
            final(self)@ == run(old(self)@, affordable(old(self)@, num_cycles as nat)),
    {
        let mut i: u32 = 0;
        while i < num_cycles && self.halted.is_none() && self.instr_cnt < u64::MAX
            invariant
                i <= num_cycles,
                old(self)@.instr_count + i <= u64::MAX,
                self@ == run(old(self)@, i as nat),
                self@.running() ==> self@.instr_count == old(self)@.instr_count + i,
            decreases num_cycles - i,
        {
            proof {
                lemma_run_next(old(self)@, i as nat);
                self.lemma_view();
                lemma_step(self@);
            }
            self.cycle();
            i += 1;
        }
        proof {
            let planned = affordable(old(self)@, num_cycles as nat);
            lemma_run_split(old(self)@, i as nat, (planned - i) as nat);
            lemma_run_split(self@, (planned - i) as nat, 0);
        }
    }

    /// Executes one cycle, unless the machine has halted.
    pub fn step(&mut self)
        ensures
            final(self)@ == run(old(self)@, affordable(old(self)@, 1)),
    {
        self.run(1);
    }

    /// Runs until the machine halts.
    pub fn go(&mut self)
        ensures
            final(self)@ == run(old(self)@, (u64::MAX - old(self)@.instr_count) as nat),
            !final(self)@.running() || final(self)@.instr_count == u64::MAX,
    {
        let ghost mut cycles: nat = 0;
        while self.halted.is_none() && self.instr_cnt < u64::MAX
            invariant
                old(self)@.instr_count + cycles <= u64::MAX,
                self@ == run(old(self)@, cycles),
                self@.running() ==> self@.instr_count == old(self)@.instr_count + cycles,
                self@.instr_count <= u64::MAX,
            decreases
                    (u64::MAX - self@.instr_count) + (if self@.running() {
                        1int
                    } else {
                        0int
                    }),
        {
            proof {
                lemma_run_next(old(self)@, cycles);
                self.lemma_view();
                lemma_step(self@);
                cycles = cycles + 1;
            }
            self.cycle();
        }
        proof {
            let planned = (u64::MAX - old(self)@.instr_count) as nat;
            lemma_run_split(old(self)@, cycles, (planned - cycles) as nat);
            lemma_run_split(self@, (planned - cycles) as nat, 0);
        }
    }

    /// The words at `start`, `start + 4` and so on up to `stop`, each
    /// with its address.
    pub fn mdump(&self, start: u32, stop: u32) -> (lines: Vec<MemoryLine>)
        ensures
            lines@ == dump_lines(self@.memory, start, stop),
    {
        let mut lines: Vec<MemoryLine> = Vec::new();
        let mut address: u64 = start as u64;
        while address <= stop as u64
            invariant
                start <= address,
                start <= stop ==> address <= stop + 4,
                start > stop ==> address == start,
                (address - start) % 4 == 0,
                lines@ == dump_lines(self@.memory, start, stop).take((address - start) / 4),
            decreases stop + 4 - address,
        {
            let value: Option<u32> = self.mem_read_32(address as u32);
            lines.push(MemoryLine { address: address as u32, value });
            address += 4;
        }
        proof {
            let all = dump_lines(self@.memory, start, stop);
            assert((address - start) / 4 == all.len());
            assert(all.take(all.len() as int) =~= all);
        }
        lines
    }

    /// Appends the text of a memory dump from `start` to `stop`.
    pub fn mdump_intern(&self, start: u32, stop: u32, out: &mut Vec<u8>)
        ensures
            final(out)@ == old(out)@ + memory_text(
                start,
                stop,
                dump_lines(self@.memory, start, stop),
            ),
    {
        let lines: Vec<MemoryLine> = self.mdump(start, stop);
        push_memory(out, start, stop, &lines);
    }

    /// The registers of `current` and the instruction count.
    pub fn rdump(&self) -> (dump: RegisterDump)
        ensures
            dump.instr_count == self@.instr_count,
            dump.cpu() == self@.current,
    {
        RegisterDump {
            instr_count: self.instr_cnt,
            pc: self.curr_state.pc,
            regs: self.curr_state.regs,
            hi: self.curr_state.hi,
            lo: self.curr_state.lo,
        }
    }

    /// Appends the text of a register dump.
    pub fn rdump_intern(&self, out: &mut Vec<u8>)
        ensures
            final(out)@ == old(out)@ + register_text(self@.instr_count, self@.current),
    {
        let dump: RegisterDump = self.rdump();
        push_registers(out, &dump);
    }

    /// Whether the machine has not halted.
    pub fn is_running(&self) -> (running: bool)
        ensures
            running == self@.running(),
    {
        self.halted.is_none()
    }

    /// Why the machine halted, if it has.
    pub fn halt_cause(&self) -> (cause: Option<HaltCause>)
        ensures
            cause == self@.halted,
    {
        self.halted
    }

    /// The number of instructions committed since construction.
    pub fn instr_count(&self) -> (count: u64)
        ensures
            count == self@.instr_count,
    {
        self.instr_cnt
    }

    /// The snapshot that instructions read.
    pub fn curr_state(&self) -> (state: &CpuState)
        ensures
            state@ == self@.current,
    {
        &self.curr_state
    }

    /// The snapshot that instructions read, to change it in place.
    pub fn curr_state_mut(&mut self) -> (state: &mut CpuState)
        ensures
            state@ == old(self)@.current,
            final(self)@ == (MachineView { current: final(state)@, ..old(self)@ }),
    {
        &mut self.curr_state
    }

    /// The snapshot that instructions write.
    pub fn next_state(&self) -> (state: &CpuState)
        ensures
            state@ == self@.next,
    {
        &self.next_state
    }

    /// The snapshot that instructions write, to change it in place.
    pub fn next_state_mut(&mut self) -> (state: &mut CpuState)
        ensures
            state@ == old(self)@.next,
            final(self)@ == (MachineView { next: final(state)@, ..old(self)@ }),
    {
        &mut self.next_state
    }
}

} // verus!
