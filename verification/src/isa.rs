//! What the instructions mean, stated on mathematical machine states.
//!
//! A cycle reads the `current` snapshot and writes the `next` one; a commit
//! then copies `next` over `current` and forces register 0 to zero. No
//! delay slots are modelled: a branch or jump moves the program counter at
//! once, and a branch target is relative to the address of the branch
//! itself.
//!
//! Three choices are fixed here. A word that does not decode, and a load or
//! store whose bytes do not all lie in one region, halt the machine and
//! leave both snapshots, the memory and the instruction count as they were.
//! A division by zero leaves HI and LO as they were.

use crate::instr::{decode, lemma_encoding_decode, IOp, IType, Instr, JOp, JType, ROp, RType};
use crate::memory::{
    byte_at, half_at, le_bytes16, le_bytes32, memory_wf, span_mapped, store, word_at,
};
use crate::word::{div_trunc, rem_trunc, sign_extend, signed, sra, word};
use vstd::arithmetic::power2::lemma2_to64;
use vstd::prelude::*;

verus! {

/// Number of general registers.
pub const MIPS_REGS: usize = 32;

/// The register that a linking jump or branch writes the return address to.
pub const LINK_REG: usize = 31;

/// The register whose value selects the service of a SYSCALL.
pub const SERVICE_REG: usize = 2;

/// The service that stops the machine.
pub const EXIT_SERVICE: u32 = 0xA;

/// Why a machine stopped.
#[derive(Debug, Clone, Copy, PartialEq, Eq)]
pub enum HaltCause {
    /// The program counter points outside every region, or at a word that
    /// runs past the end of its region.
    FetchOutsideMemory,
    /// The fetched word is zero.
    ZeroWord,
    /// A SYSCALL asked for the exit service. That instruction is committed.
    ExitRequested,
    /// The fetched word is no instruction.
    UnknownOpcode,
    /// A load from this address is not served by any region.
    LoadOutsideMemory(u32),
    /// A store to this address is not served by any region.
    StoreOutsideMemory(u32),
}

/// One snapshot of the architectural registers.
#[verifier::ext_equal]
pub struct CpuView {
    pub pc: u32,
    pub regs: Seq<u32>,
    pub hi: u32,
    pub lo: u32,
}

/// A whole machine.
#[verifier::ext_equal]
pub struct MachineView {
    /// The snapshot that the executing instruction reads.
    pub current: CpuView,
    /// The snapshot that the executing instruction writes.
    pub next: CpuView,
    /// Why the machine stopped, if it has.
    pub halted: Option<HaltCause>,
    /// Instructions committed since construction.
    pub instr_count: nat,
    pub memory: Map<int, u8>,
}

impl CpuView {
    /// There are 32 general registers.
    pub open spec fn wf(self) -> bool {
        self.regs.len() == MIPS_REGS
    }

    /// The snapshot with one register replaced.
    pub open spec fn with_reg(self, reg: int, value: u32) -> CpuView {
        CpuView { regs: self.regs.update(reg, value), ..self }
    }

    /// The snapshot with the program counter replaced.
    pub open spec fn with_pc(self, pc: u32) -> CpuView {
        CpuView { pc, ..self }
    }

    /// The snapshot with HI and LO replaced.
    pub open spec fn with_hi_lo(self, hi: u32, lo: u32) -> CpuView {
        CpuView { hi, lo, ..self }
    }
}

impl MachineView {
    /// Both snapshots have their 32 registers, and the memory is defined
    /// on the mapped addresses and nowhere else. The view of every machine
    /// is so.
    pub open spec fn wf(self) -> bool {
        &&& self.current.wf()
        &&& self.next.wf()
        &&& memory_wf(self.memory)
    }

    /// Whether the machine has not halted.
    pub open spec fn running(self) -> bool {
        self.halted is None
    }

    /// The machine with its `next` snapshot replaced.
    pub open spec fn with_next(self, next: CpuView) -> MachineView {
        MachineView { next, ..self }
    }

    /// The machine stopped for the given cause.
    pub open spec fn halt(self, cause: HaltCause) -> MachineView {
        MachineView { halted: Some(cause), ..self }
    }
}

/// The address of the instruction after the one at `pc`.
pub open spec fn following(pc: u32) -> u32 {
    word(pc + 4)
}

/// Where a jump in the 256 MiB segment of `pc` goes.
pub open spec fn jump_target(pc: u32, target: u32) -> u32 {
    (pc & 0xF000_0000) | (target << 2)
}

/// What a J-form instruction does to the machine. It never lets the
/// program counter advance by itself.
pub open spec fn jtype_effect(m: MachineView, instr: JType) -> MachineView {
    let next = m.next.with_pc(jump_target(m.current.pc, instr.target));
    match instr.op {
        JOp::J => m.with_next(next),
        JOp::JAL => m.with_next(next.with_reg(LINK_REG as int, following(m.current.pc))),
    }
}

/// Whether the operation is a conditional branch.
pub open spec fn is_branch(op: IOp) -> bool {
    match op {
        IOp::BEQ | IOp::BNE | IOp::BLEZ | IOp::BGTZ | IOp::BLTZ | IOp::BGEZ | IOp::BLTZAL
        | IOp::BGEZAL => true,
        _ => false,
    }
}

/// Whether the operation reads memory.
pub open spec fn is_load(op: IOp) -> bool {
    match op {
        IOp::LB | IOp::LH | IOp::LW | IOp::LBU | IOp::LHU => true,
        _ => false,
    }
}

/// Whether the operation writes memory.
pub open spec fn is_store(op: IOp) -> bool {
    match op {
        IOp::SB | IOp::SH | IOp::SW => true,
        _ => false,
    }
}

/// Whether a branch writes the return address to the link register. It
/// does so whether or not it is taken.
pub open spec fn links(op: IOp) -> bool {
    match op {
        IOp::BLTZAL | IOp::BGEZAL => true,
        _ => false,
    }
}

/// Whether a branch is taken, given the values of its `rs` and `rt`
/// registers.
pub open spec fn branch_taken(op: IOp, rs: u32, rt: u32) -> bool {
    match op {
        IOp::BEQ => rs == rt,
        IOp::BNE => rs != rt,
        IOp::BLEZ => signed(rs) <= 0,
        IOp::BGTZ => signed(rs) > 0,
        IOp::BLTZ | IOp::BLTZAL => signed(rs) < 0,
        IOp::BGEZ | IOp::BGEZAL => signed(rs) >= 0,
        _ => false,
    }
}

/// Where a taken branch goes: the 16-bit immediate counts instructions,
/// forwards or backwards, from the branch itself.
pub open spec fn branch_target(pc: u32, imm: u32) -> u32 {
    word(pc + sign_extend(imm << 2, 18))
}

/// The address that a load or store works on.
pub open spec fn effective_address(base: u32, imm: u32) -> u32 {
    word(base + sign_extend(imm, 16))
}

/// What an arithmetic or logical operation with an immediate writes to
/// `rt`, given the value of `rs`.
pub open spec fn immediate_result(op: IOp, rs: u32, imm: u32) -> u32 {
    match op {
        IOp::ADDI | IOp::ADDIU => word(rs + sign_extend(imm, 16)),
        IOp::SLTI => if signed(rs) < sign_extend(imm, 16) {
            1
        } else {
            0
        },
        IOp::SLTIU => if rs < word(sign_extend(imm, 16)) {
            1
        } else {
            0
        },
        IOp::ANDI => rs & imm,
        IOp::ORI => rs | imm,
        IOp::XORI => rs ^ imm,
        IOp::LUI => imm << 16,
        _ => 0,
    }
}

/// What a load writes to `rt`, or nothing where the memory does not serve
/// the access.
pub open spec fn loaded_value(op: IOp, mem: Map<int, u8>, address: u32) -> Option<u32> {
    match op {
        IOp::LB => match byte_at(mem, address) {
            Some(b) => Some(word(sign_extend(b as u32, 8))),
            None => None,
        },
        IOp::LBU => match byte_at(mem, address) {
            Some(b) => Some(b as u32),
            None => None,
        },
        IOp::LH => match half_at(mem, address) {
            Some(h) => Some(word(sign_extend(h as u32, 16))),
            None => None,
        },
        IOp::LHU => match half_at(mem, address) {
            Some(h) => Some(h as u32),
            None => None,
        },
        IOp::LW => word_at(mem, address),
        _ => None,
    }
}

/// The bytes that a store writes, given the value of `rt`: its low byte,
/// its low half-word or all of it. The bytes around them stay.
pub open spec fn stored_bytes(op: IOp, rt: u32) -> Seq<u8> {
    match op {
        IOp::SB => seq![(rt % 0x100) as u8],
        IOp::SH => le_bytes16((rt % 0x1_0000) as u16),
        _ => le_bytes32(rt),
    }
}

/// Whether an I-form instruction runs to its end, and if so whether the
/// program counter is still to be advanced; else the fault.
pub open spec fn itype_outcome(m: MachineView, instr: IType) -> Result<bool, HaltCause> {
    let rs = m.current.regs[instr.rs as int];
    let rt = m.current.regs[instr.rt as int];
    let address = effective_address(rs, instr.imm);
    if is_branch(instr.op) {
        Ok(!branch_taken(instr.op, rs, rt))
    } else if is_load(instr.op) {
        if loaded_value(instr.op, m.memory, address) is Some {
            Ok(true)
        } else {
            Err(HaltCause::LoadOutsideMemory(address))
        }
    } else if is_store(instr.op) {
        if span_mapped(address as int, stored_bytes(instr.op, rt).len() as int) {
            Ok(true)
        } else {
            Err(HaltCause::StoreOutsideMemory(address))
        }
    } else {
        Ok(true)
    }
}

/// What an I-form instruction does to the machine. Where it faults it does
/// nothing.
pub open spec fn itype_effect(m: MachineView, instr: IType) -> MachineView {
    let rs = m.current.regs[instr.rs as int];
    let rt = m.current.regs[instr.rt as int];
    let address = effective_address(rs, instr.imm);
    if itype_outcome(m, instr) is Err {
        m
    } else if is_branch(instr.op) {
        let linked = if links(instr.op) {
            m.next.with_reg(LINK_REG as int, following(m.current.pc))
        } else {
            m.next
        };
        if branch_taken(instr.op, rs, rt) {
            m.with_next(linked.with_pc(branch_target(m.current.pc, instr.imm)))
        } else {
            m.with_next(linked)
        }
    } else if is_load(instr.op) {
        m.with_next(
            m.next.with_reg(instr.rt as int, loaded_value(instr.op, m.memory, address).unwrap()),
        )
    } else if is_store(instr.op) {
        MachineView { memory: store(m.memory, address as int, stored_bytes(instr.op, rt)), ..m }
    } else {
        m.with_next(m.next.with_reg(instr.rt as int, immediate_result(instr.op, rs, instr.imm)))
    }
}

/// What an R-form operation writes to `rd`, if it writes a general
/// register at all.
pub open spec fn register_result(cpu: CpuView, instr: RType) -> Option<u32> {
    let rs = cpu.regs[instr.rs as int];
    let rt = cpu.regs[instr.rt as int];
    match instr.op {
        ROp::SLL => Some(rt << instr.shamt),
        ROp::SRL => Some(rt >> instr.shamt),
        ROp::SRA => Some(sra(rt, instr.shamt)),
        ROp::SLLV => Some(rt << (rs & 0x1F)),
        ROp::SRLV => Some(rt >> (rs & 0x1F)),
        ROp::SRAV => Some(sra(rt, rs & 0x1F)),
        ROp::JALR => Some(following(cpu.pc)),
        ROp::ADD | ROp::ADDU => Some(word(rs + rt)),
        ROp::SUB | ROp::SUBU => Some(word(rs - rt)),
        ROp::AND => Some(rs & rt),
        ROp::OR => Some(rs | rt),
        ROp::XOR => Some(rs ^ rt),
        ROp::NOR => Some(!(rs | rt)),
        ROp::SLT => Some(
            if signed(rs) < signed(rt) {
                1
            } else {
                0
            },
        ),
        ROp::SLTU => Some(
            if rs < rt {
                1
            } else {
                0
            },
        ),
        ROp::MFHI => Some(cpu.hi),
        ROp::MFLO => Some(cpu.lo),
        _ => None,
    }
}

/// What an R-form operation writes to the pair (HI, LO), if it writes any
/// of the two; `hi` and `lo` are the values that the pair holds in `next`.
pub open spec fn hi_lo_result(cpu: CpuView, hi: u32, lo: u32, instr: RType) -> (u32, u32) {
    let rs = cpu.regs[instr.rs as int];
    let rt = cpu.regs[instr.rt as int];
    match instr.op {
        ROp::MULT => (
            word((signed(rs) * signed(rt)) / 0x1_0000_0000),
            word(signed(rs) * signed(rt)),
        ),
        ROp::MULTU => (((rs * rt) / 0x1_0000_0000) as u32, ((rs * rt) % 0x1_0000_0000) as u32),
        ROp::DIV => if rt == 0 {
            (hi, lo)
        } else {
            (word(rem_trunc(signed(rs), signed(rt))), word(div_trunc(signed(rs), signed(rt))))
        },
        ROp::DIVU => if rt == 0 {
            (hi, lo)
        } else {
            (rs % rt, rs / rt)
        },
        ROp::MTHI => (rs, lo),
        ROp::MTLO => (hi, rs),
        _ => (hi, lo),
    }
}

/// Whether an R-form instruction leaves the program counter to be
/// advanced: all but the two register jumps do.
pub open spec fn rtype_advances(instr: RType) -> bool {
    match instr.op {
        ROp::JR | ROp::JALR => false,
        _ => true,
    }
}

/// Whether an R-form instruction stops the machine: a SYSCALL does when
/// the service register holds the exit service.
pub open spec fn requests_exit(cpu: CpuView, instr: RType) -> bool {
    instr.op == ROp::SYSCALL && cpu.regs[SERVICE_REG as int] == EXIT_SERVICE
}

/// What an R-form instruction does to the machine.
pub open spec fn rtype_effect(m: MachineView, instr: RType) -> MachineView {
    let cpu = m.current;
    let written = match register_result(cpu, instr) {
        Some(value) => m.next.with_reg(instr.rd as int, value),
        None => m.next,
    };
    let (hi, lo) = hi_lo_result(cpu, m.next.hi, m.next.lo, instr);
    let jumped = if rtype_advances(instr) {
        written
    } else {
        written.with_pc(cpu.regs[instr.rs as int])
    };
    MachineView {
        next: jumped.with_hi_lo(hi, lo),
        halted: if requests_exit(cpu, instr) {
            Some(HaltCause::ExitRequested)
        } else {
            m.halted
        },
        ..m
    }
}

/// Whether an instruction runs to its end, and if so whether the program
/// counter is still to be advanced; else the fault.
pub open spec fn outcome(m: MachineView, instr: Instr) -> Result<bool, HaltCause> {
    match instr {
        Instr::JType(j) => Ok(false),
        Instr::IType(i) => itype_outcome(m, i),
        Instr::RType(r) => Ok(rtype_advances(r)),
    }
}

/// What an instruction does to the machine, short of advancing the
/// program counter and committing.
pub open spec fn effect(m: MachineView, instr: Instr) -> MachineView {
    match instr {
        Instr::JType(j) => jtype_effect(m, j),
        Instr::IType(i) => itype_effect(m, i),
        Instr::RType(r) => rtype_effect(m, r),
    }
}

/// The machine with `next` moved to the following instruction.
pub open spec fn advance(m: MachineView) -> MachineView {
    m.with_next(m.next.with_pc(following(m.current.pc)))
}

/// The end of a cycle: `next` becomes `current`, register 0 of `current`
/// is forced to zero, and the instruction is counted.
pub open spec fn commit(m: MachineView) -> MachineView {
    MachineView { current: m.next.with_reg(0, 0), instr_count: m.instr_count + 1, ..m }
}

/// The cause for which the cycle that starts in `m` stops before it
/// commits, if it does.
pub open spec fn fault(m: MachineView) -> Option<HaltCause> {
    match word_at(m.memory, m.current.pc) {
        None => Some(HaltCause::FetchOutsideMemory),
        Some(w) => if w == 0 {
            Some(HaltCause::ZeroWord)
        } else {
            match decode(w) {
                Err(_) => Some(HaltCause::UnknownOpcode),
                Ok(instr) => match outcome(m, instr) {
                    Err(cause) => Some(cause),
                    Ok(_) => None,
                },
            }
        },
    }
}

/// The instruction that the cycle that starts in `m` executes, where it
/// does not stop before.
pub open spec fn fetched(m: MachineView) -> Instr
    recommends
        fault(m) is None,
{
    decode(word_at(m.memory, m.current.pc).unwrap()).unwrap()
}

/// The machine after the instruction of this cycle has run to its end and
/// the program counter has been advanced, where that was left to be done;
/// nothing is committed yet.
pub open spec fn execute(m: MachineView) -> MachineView
    recommends
        fault(m) is None,
{
    let instr = fetched(m);
    if outcome(m, instr) == Ok::<bool, HaltCause>(true) {
        advance(effect(m, instr))
    } else {
        effect(m, instr)
    }
}

/// One cycle: fetch at `current.pc`, decode, execute, advance the program
/// counter unless the instruction set it, commit. A cycle that faults only
/// records the cause.
#[verifier::opaque]
pub open spec fn step(m: MachineView) -> MachineView {
    match fault(m) {
        Some(cause) => m.halt(cause),
        None => commit(execute(m)),
    }
}

/// The number of cycles, out of `wanted`, for which the instruction count
/// has room: it is a 64-bit number.
pub open spec fn affordable(m: MachineView, wanted: nat) -> nat {
    if m.instr_count + wanted <= u64::MAX {
        wanted
    } else {
        (u64::MAX - m.instr_count) as nat
    }
}

/// Up to `n` cycles, stopping early once the machine has halted.
pub open spec fn run(m: MachineView, n: nat) -> MachineView
    decreases n,
{
    if n == 0 || !m.running() {
        m
    } else {
        run(step(m), (n - 1) as nat)
    }
}

/// How many of the cycles of `run(m, n)` commit.
pub open spec fn committed(m: MachineView, n: nat) -> nat
    decreases n,
{
    if n == 0 || !m.running() {
        0
    } else if fault(m) is Some {
        committed(step(m), (n - 1) as nat)
    } else {
        1 + committed(step(m), (n - 1) as nat)
    }
}

/// A jump keeps the top four bits of the program counter and takes the
/// other 28 from the target, which counts words.
pub proof fn lemma_jump_target(pc: u32, target: u32)
    requires
        target < 0x400_0000,
    ensures
        jump_target(pc, target) == (pc / 0x1000_0000) * 0x1000_0000 + 4 * target,
{
    assert((pc & 0xF000_0000) | (target << 2) == (pc / 0x1000_0000) * 0x1000_0000 + 4 * target)
        by (bit_vector)
        requires
            target < 0x400_0000,
    ;
}

/// The immediate of a branch counts words: the offset in bytes is four
/// times the immediate, read as a signed 16-bit number.
pub proof fn lemma_branch_target(pc: u32, imm: u32)
    requires
        imm < 0x1_0000,
    ensures
        branch_target(pc, imm) == word(pc + 4 * sign_extend(imm, 16)),
{
    lemma2_to64();
    assert(imm << 2 == 4 * imm) by (bit_vector)
        requires
            imm < 0x1_0000,
    ;
}

/// A variable shift takes its amount modulo 32, and LUI multiplies its
/// immediate by 2^16.
pub proof fn lemma_shift_forms(rs: u32, imm: u32)
    requires
        imm < 0x1_0000,
    ensures
        rs & 0x1F == rs % 32,
        imm << 16 == imm * 0x1_0000,
{
    assert(rs & 0x1F == rs % 32) by (bit_vector);
    assert(imm << 16 == imm * 0x1_0000) by (bit_vector)
        requires
            imm < 0x1_0000,
    ;
}

/// A cycle that commits leaves register 0 of `current` at zero and counts
/// one instruction; a cycle that faults changes nothing but the cause.
pub proof fn lemma_step(m: MachineView)
    requires
        m.wf(),
    ensures
        fault(m) is None ==> step(m).current.regs[0] == 0 && step(m).instr_count == m.instr_count
            + 1,
        fault(m) is Some ==> step(m) == m.halt(fault(m).unwrap()),
        step(m).running() ==> fault(m) is None,
        step(m).wf(),
{
    reveal(step);
    if fault(m) is None {
        lemma_encoding_decode(word_at(m.memory, m.current.pc).unwrap());
        lemma_effect_keeps(m, fetched(m));
    }
}

/// No instruction changes the `current` snapshot or the instruction
/// count, and none makes a machine ill-formed.
pub proof fn lemma_effect_keeps(m: MachineView, instr: Instr)
    requires
        instr.wf(),
        m.wf(),
    ensures
        effect(m, instr).wf(),
        effect(m, instr).current == m.current,
        effect(m, instr).instr_count == m.instr_count,
{
}

/// A run keeps a machine well-formed.
pub proof fn lemma_run_wf(m: MachineView, n: nat)
    requires
        m.wf(),
    ensures
        run(m, n).wf(),
    decreases n,
{
    if n == 0 || !m.running() {
    } else {
        lemma_step(m);
        lemma_run_wf(step(m), (n - 1) as nat);
    }
}

/// The instruction count after a run is the count before it plus the
/// number of cycles that committed. As long as the machine runs, every
/// cycle commits.
pub proof fn lemma_run_counts(m: MachineView, n: nat)
    requires
        m.wf(),
    ensures
        run(m, n).instr_count == m.instr_count + committed(m, n),
        committed(m, n) <= n,
        m.running() && run(m, n).running() ==> committed(m, n) == n,
    decreases n,
{
    if n == 0 || !m.running() {
    } else {
        lemma_step(m);
        lemma_run_counts(step(m), (n - 1) as nat);
    }
}

/// Once a cycle of a run has committed, register 0 of `current` is zero at
/// the end of the run.
pub proof fn lemma_run_zero_register(m: MachineView, n: nat)
    requires
        m.wf(),
    ensures
        committed(m, n) > 0 ==> run(m, n).current.regs[0] == 0,
        m.current.regs[0] == 0 ==> run(m, n).current.regs[0] == 0,
    decreases n,
{
    if n == 0 || !m.running() {
    } else {
        lemma_step(m);
        lemma_run_zero_register(step(m), (n - 1) as nat);
    }
}

/// One more cycle at the end of a run is a step from where the run ended,
/// unless the machine had halted by then.
pub proof fn lemma_run_next(m: MachineView, n: nat)
    ensures
        run(m, n + 1) == (if run(m, n).running() {
            step(run(m, n))
        } else {
            run(m, n)
        }),
{
    lemma_run_split(m, n, 1);
    reveal_with_fuel(run, 2);
}

/// A machine that has halted stays as it is under `run`, and running in
/// two stretches is running once for their sum.
pub proof fn lemma_run_split(m: MachineView, a: nat, b: nat)
    ensures
        run(run(m, a), b) == run(m, a + b),
        !m.running() ==> run(m, a) == m,
    decreases a,
{
    if a == 0 {
    } else if !m.running() {
        lemma_run_split(m, 0, b);
    } else {
        lemma_run_split(step(m), (a - 1) as nat, b);
    }
}

} // verus!
