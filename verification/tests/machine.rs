use mips_sim::instr::{IOp, IType, JOp, JType, ROp, RType};
use mips_sim::isa::{HaltCause, EXIT_SERVICE, LINK_REG, MIPS_REGS, SERVICE_REG};
use mips_sim::loader::{image_words, reversed_word};
use mips_sim::dump::MemoryLine;
use mips_sim::sim::{CpuState, MipsComputer};

fn image(words: &[u32]) -> Vec<u8> {
    let mut bytes = Vec::new();
    for word in words {
        bytes.push((word >> 24) as u8);
        bytes.push((word >> 16) as u8);
        bytes.push((word >> 8) as u8);
        bytes.push(*word as u8);
    }
    bytes
}

fn boot(words: &[u32]) -> MipsComputer {
    MipsComputer::new(&[image(words)])
}

fn counting_program() -> MipsComputer {
    // ADDIU r8, r8, 1 three times, then a zero word.
    boot(&[0x2508_0001, 0x2508_0001, 0x2508_0001, 0])
}

#[test]
fn constants() {
    assert_eq!(MIPS_REGS, 32);
    assert_eq!(LINK_REG, 31);
    assert_eq!(SERVICE_REG, 2);
    assert_eq!(EXIT_SERVICE, 10);
}

#[test]
fn fresh_snapshot_is_all_zero() {
    let state = CpuState::new();
    assert_eq!(state.pc(), 0);
    assert_eq!(state.hi(), 0);
    assert_eq!(state.lo(), 0);
    for reg in 0..32 {
        assert_eq!(state.reg(reg), Some(0));
    }
    assert_eq!(state.reg(32), None);
}

#[test]
fn snapshot_setters() {
    let mut state = CpuState::new();
    state.set_hi(0xAAAA_AAAA);
    state.set_lo(0xBBBB_BBBB);
    state.set_pc(0x0040_0000);
    assert!(state.set_reg(0, 1));
    assert!(state.set_reg(31, 0xFFFF_FFFF));
    assert_eq!(state.hi(), 0xAAAA_AAAA);
    assert_eq!(state.lo(), 0xBBBB_BBBB);
    assert_eq!(state.pc(), 0x0040_0000);
    assert_eq!(state.reg(0), Some(1));
    assert_eq!(state.reg(31), Some(0xFFFF_FFFF));
    assert_eq!(state.reg(30), Some(0));
}

#[test]
fn set_reg_refuses_unknown_registers() {
    let mut state = CpuState::new();
    assert!(state.set_reg(5, 55));
    assert!(!state.set_reg(32, 99));
    assert!(!state.set_reg(usize::MAX, 99));
    for reg in 0..32 {
        assert_eq!(state.reg(reg), Some(if reg == 5 { 55 } else { 0 }));
    }
    assert_eq!(state.reg(usize::MAX), None);
}

#[test]
fn machine_without_images() {
    let comp = MipsComputer::new(&[]);
    assert_eq!(comp.curr_state().pc(), 0);
    assert_eq!(comp.next_state().pc(), 0);
    assert!(comp.is_running());
    assert_eq!(comp.halt_cause(), None);
    assert_eq!(comp.instr_count(), 0);
    assert_eq!(comp.mem_read_32(0x0040_0000), Some(0));
}

#[test]
fn machine_with_an_image() {
    let comp = boot(&[0x24080005, 0x3C08DEAD]);
    assert_eq!(comp.curr_state().pc(), 0x0040_0000);
    assert_eq!(comp.next_state().pc(), 0x0040_0000);
    assert!(comp.is_running());
    assert_eq!(comp.instr_count(), 0);
    for reg in 0..32 {
        assert_eq!(comp.curr_state().reg(reg), Some(0));
        assert_eq!(comp.next_state().reg(reg), Some(0));
    }
    assert_eq!(comp.curr_state().hi(), 0);
    assert_eq!(comp.next_state().lo(), 0);
    assert_eq!(comp.mem_read_32(0x0040_0000), Some(0x24080005));
    assert_eq!(comp.mem_read_32(0x0040_0004), Some(0x3C08DEAD));
    assert_eq!(comp.mem_read_32(0x0040_0008), Some(0));
    assert_eq!(comp.mem_read_32(0x1000_0000), Some(0));
}

#[test]
fn machine_with_an_empty_image_still_points_at_text() {
    let comp = MipsComputer::new(&[Vec::new()]);
    assert_eq!(comp.curr_state().pc(), 0x0040_0000);
    assert_eq!(comp.next_state().pc(), 0x0040_0000);
    assert_eq!(comp.mem_read_32(0x0040_0000), Some(0));
}

#[test]
fn image_bytes_are_reversed_within_each_word() {
    let comp = MipsComputer::new(&[vec![0x24, 0x08, 0x00, 0x05, 0xDE, 0xAD, 0xBE, 0xEF]]);
    assert_eq!(comp.mem_read_8(0x0040_0000), Some(0x05));
    assert_eq!(comp.mem_read_8(0x0040_0001), Some(0x00));
    assert_eq!(comp.mem_read_8(0x0040_0002), Some(0x08));
    assert_eq!(comp.mem_read_8(0x0040_0003), Some(0x24));
    assert_eq!(comp.mem_read_8(0x0040_0004), Some(0xEF));
    assert_eq!(comp.mem_read_8(0x0040_0007), Some(0xDE));
    assert_eq!(comp.mem_read_32(0x0040_0004), Some(0xDEADBEEF));
}

#[test]
fn partial_last_word_is_padded_with_zeros() {
    let comp = MipsComputer::new(&[vec![0x24, 0x08, 0x00, 0x05, 0x3C]]);
    assert_eq!(comp.mem_read_32(0x0040_0000), Some(0x24080005));
    assert_eq!(comp.mem_read_32(0x0040_0004), Some(0x3C00_0000));
    let comp = MipsComputer::new(&[vec![0x3C, 0x08]]);
    assert_eq!(comp.mem_read_32(0x0040_0000), Some(0x3C08_0000));
    let comp = MipsComputer::new(&[vec![0x3C, 0x08, 0xDE]]);
    assert_eq!(comp.mem_read_32(0x0040_0000), Some(0x3C08_DE00));
    assert_eq!(comp.mem_read_32(0x0040_0004), Some(0));
}

#[test]
fn images_lie_one_after_the_other() {
    let comp = MipsComputer::new(&[
        image(&[0x1111_1111, 0x2222_2222]),
        Vec::new(),
        vec![0x33, 0x44, 0x55],
        image(&[0x6666_6666]),
    ]);
    assert_eq!(comp.mem_read_32(0x0040_0000), Some(0x1111_1111));
    assert_eq!(comp.mem_read_32(0x0040_0004), Some(0x2222_2222));
    assert_eq!(comp.mem_read_32(0x0040_0008), Some(0x3344_5500));
    assert_eq!(comp.mem_read_32(0x0040_000C), Some(0x6666_6666));
    assert_eq!(comp.mem_read_32(0x0040_0010), Some(0));
    assert_eq!(comp.curr_state().pc(), 0x0040_0000);
}

#[test]
fn what_does_not_fit_in_text_is_dropped() {
    let mut big = vec![0u8; 0x0010_0000 - 4];
    big.extend_from_slice(&[0xAA, 0xBB, 0xCC, 0xDD, 0x11, 0x22, 0x33, 0x44]);
    let comp = MipsComputer::new(&[big, image(&[0x5555_5555])]);
    assert_eq!(comp.mem_read_32(0x004F_FFF8), Some(0));
    assert_eq!(comp.mem_read_32(0x004F_FFFC), Some(0xAABB_CCDD));
    assert_eq!(comp.mem_read_32(0x0050_0000), None);
    assert_eq!(comp.mem_read_32(0x0040_0000), Some(0));
    assert_eq!(comp.mem_read_32(0x1000_0000), Some(0));
    assert_eq!(comp.curr_state().pc(), 0x0040_0000);
}

#[test]
fn an_image_takes_whole_words() {
    assert_eq!(image_words(&[]), 0);
    assert_eq!(image_words(&[1]), 1);
    assert_eq!(image_words(&[1, 2, 3]), 1);
    assert_eq!(image_words(&[1, 2, 3, 4]), 1);
    assert_eq!(image_words(&[1, 2, 3, 4, 5]), 2);
    assert_eq!(image_words(&[0; 4096]), 1024);
    assert_eq!(image_words(&[0; 4097]), 1025);
}

#[test]
fn reversed_word_pads_past_the_end() {
    assert_eq!(reversed_word(&[1, 2, 3, 4, 5, 6], 0), [4, 3, 2, 1]);
    assert_eq!(reversed_word(&[1, 2, 3, 4, 5, 6], 4), [0, 0, 6, 5]);
    assert_eq!(reversed_word(&[1, 2, 3, 4, 5, 6], 8), [0, 0, 0, 0]);
    assert_eq!(reversed_word(&[1, 2, 3, 4, 5, 6], 1), [5, 4, 3, 2]);
    assert_eq!(reversed_word(&[], 0), [0, 0, 0, 0]);
}

#[test]
fn run_executes_up_to_the_given_number_of_cycles() {
    let mut comp = counting_program();
    comp.run(2);
    assert_eq!(comp.instr_count(), 2);
    assert_eq!(comp.curr_state().reg(8), Some(2));
    assert_eq!(comp.curr_state().pc(), 0x0040_0008);
    assert!(comp.is_running());
}

#[test]
fn run_stops_early_at_a_halt() {
    let mut comp = counting_program();
    comp.run(100);
    assert_eq!(comp.instr_count(), 3);
    assert_eq!(comp.curr_state().reg(8), Some(3));
    assert_eq!(comp.curr_state().pc(), 0x0040_000C);
    assert!(!comp.is_running());
    assert_eq!(comp.halt_cause(), Some(HaltCause::ZeroWord));
}

#[test]
fn run_of_no_cycles_changes_nothing() {
    let mut comp = counting_program();
    comp.run(0);
    assert_eq!(comp.instr_count(), 0);
    assert_eq!(comp.curr_state().pc(), 0x0040_0000);
    assert!(comp.is_running());
}

#[test]
fn run_in_two_stretches_is_one_run() {
    let mut split = counting_program();
    split.run(1);
    split.run(2);
    let mut whole = counting_program();
    whole.run(3);
    assert_eq!(split.instr_count(), whole.instr_count());
    assert_eq!(split.rdump().regs, whole.rdump().regs);
    assert_eq!(split.curr_state().pc(), whole.curr_state().pc());
    assert_eq!(split.is_running(), whole.is_running());
}

#[test]
fn halted_machine_does_not_run() {
    let mut comp = counting_program();
    comp.go();
    assert!(!comp.is_running());
    comp.curr_state_mut().set_pc(0x0040_0000);
    comp.run(5);
    comp.step();
    comp.go();
    assert_eq!(comp.instr_count(), 3);
    assert_eq!(comp.curr_state().pc(), 0x0040_0000);
    assert_eq!(comp.curr_state().reg(8), Some(3));
}

#[test]
fn step_is_one_cycle() {
    let mut comp = counting_program();
    comp.step();
    assert_eq!(comp.instr_count(), 1);
    assert_eq!(comp.curr_state().reg(8), Some(1));
    comp.step();
    comp.step();
    assert!(comp.is_running());
    comp.step();
    assert!(!comp.is_running());
    assert_eq!(comp.instr_count(), 3);
}

#[test]
fn go_runs_until_the_machine_halts() {
    let mut comp = counting_program();
    comp.go();
    assert!(!comp.is_running());
    assert_eq!(comp.halt_cause(), Some(HaltCause::ZeroWord));
    assert_eq!(comp.instr_count(), 3);
    assert_eq!(comp.curr_state().reg(8), Some(3));
}

#[test]
fn go_runs_a_loop_to_its_exit() {
    // r8 counts down from 5; r9 adds 3 each round; then exit service.
    let mut comp = boot(&[
        0x2408_0005, // ADDIU r8, r0, 5
        0x2529_0003, // ADDIU r9, r9, 3
        0x2508_FFFF, // ADDIU r8, r8, -1
        0x1D00_FFFE, // BGTZ  r8, -2
        0x2402_000A, // ADDIU r2, r0, 10
        0x0000_000C, // SYSCALL
    ]);
    comp.go();
    assert_eq!(comp.halt_cause(), Some(HaltCause::ExitRequested));
    assert_eq!(comp.curr_state().reg(8), Some(0));
    assert_eq!(comp.curr_state().reg(9), Some(15));
    assert_eq!(comp.instr_count(), 1 + 5 * 3 + 2);
    assert_eq!(comp.curr_state().pc(), 0x0040_0018);
}

#[test]
fn instruction_count_counts_committed_cycles() {
    let mut comp = counting_program();
    for expected in 1..=3u64 {
        comp.cycle();
        assert_eq!(comp.instr_count(), expected);
    }
    comp.cycle();
    assert_eq!(comp.instr_count(), 3);
    comp.cycle();
    assert_eq!(comp.instr_count(), 3);
}

#[test]
fn cycle_on_a_halted_machine_still_executes() {
    let mut comp = boot(&[0x0000_000C, 0x2508_0001]);
    assert!(comp.curr_state_mut().set_reg(2, 10));
    assert!(comp.next_state_mut().set_reg(2, 10));
    comp.cycle();
    assert_eq!(comp.halt_cause(), Some(HaltCause::ExitRequested));
    comp.cycle();
    assert_eq!(comp.instr_count(), 2);
    assert_eq!(comp.curr_state().reg(8), Some(1));
    assert_eq!(comp.halt_cause(), Some(HaltCause::ExitRequested));
    comp.cycle();
    assert_eq!(comp.instr_count(), 2);
    assert_eq!(comp.halt_cause(), Some(HaltCause::ZeroWord));
}

#[test]
fn process_instruction_does_not_commit() {
    let mut comp = boot(&[0x24080005]);
    assert!(comp.process_instruction());
    assert_eq!(comp.next_state().reg(8), Some(5));
    assert_eq!(comp.next_state().pc(), 0x0040_0004);
    assert_eq!(comp.curr_state().reg(8), Some(0));
    assert_eq!(comp.curr_state().pc(), 0x0040_0000);
    assert_eq!(comp.instr_count(), 0);
    let mut comp = boot(&[0]);
    assert!(!comp.process_instruction());
    assert_eq!(comp.halt_cause(), Some(HaltCause::ZeroWord));
}

#[test]
fn jump_handler_writes_next_only() {
    let mut comp = boot(&[0]);
    let advance = comp.process_jtype_instruction(&JType {
        opcode: 3,
        target: 0x0010_0004,
        op: JOp::JAL,
    });
    assert!(!advance);
    assert_eq!(comp.next_state().pc(), 0x0040_0010);
    assert_eq!(comp.next_state().reg(31), Some(0x0040_0004));
    assert_eq!(comp.curr_state().pc(), 0x0040_0000);
    assert_eq!(comp.curr_state().reg(31), Some(0));
    let advance =
        comp.process_jtype_instruction(&JType { opcode: 2, target: 0, op: JOp::J });
    assert!(!advance);
    assert_eq!(comp.next_state().pc(), 0);
}

#[test]
fn register_handler_says_whether_to_advance() {
    let mut comp = boot(&[0]);
    assert!(comp.curr_state_mut().set_reg(1, 0x0040_0020));
    let add = RType { opcode: 0, rs: 1, rt: 1, rd: 3, shamt: 0, funct: 0x20, op: ROp::ADD };
    assert!(comp.process_rtype_instruction(&add));
    assert_eq!(comp.next_state().reg(3), Some(0x0080_0040));
    assert_eq!(comp.next_state().pc(), 0x0040_0000);
    let jr = RType { opcode: 0, rs: 1, rt: 0, rd: 0, shamt: 0, funct: 0x08, op: ROp::JR };
    assert!(!comp.process_rtype_instruction(&jr));
    assert_eq!(comp.next_state().pc(), 0x0040_0020);
    let jalr = RType { opcode: 0, rs: 1, rt: 0, rd: 4, shamt: 0, funct: 0x09, op: ROp::JALR };
    assert!(!comp.process_rtype_instruction(&jalr));
    assert_eq!(comp.next_state().reg(4), Some(0x0040_0004));
    assert_eq!(comp.curr_state().reg(4), Some(0));
}

#[test]
fn immediate_handler_reports_faults() {
    let mut comp = boot(&[0]);
    let lw = IType { opcode: 0x23, rs: 0, rt: 2, imm: 0x10, op: IOp::LW };
    assert_eq!(comp.process_itype_instruction(&lw), Err(HaltCause::LoadOutsideMemory(0x10)));
    let sw = IType { opcode: 0x2B, rs: 0, rt: 2, imm: 0x8000, op: IOp::SW };
    assert_eq!(
        comp.process_itype_instruction(&sw),
        Err(HaltCause::StoreOutsideMemory(0xFFFF_8000))
    );
    assert!(comp.is_running());
    let addiu = IType { opcode: 0x09, rs: 0, rt: 2, imm: 7, op: IOp::ADDIU };
    assert_eq!(comp.process_itype_instruction(&addiu), Ok(true));
    assert_eq!(comp.next_state().reg(2), Some(7));
    let beq = IType { opcode: 0x04, rs: 0, rt: 0, imm: 3, op: IOp::BEQ };
    assert_eq!(comp.process_itype_instruction(&beq), Ok(false));
    assert_eq!(comp.next_state().pc(), 0x0040_000C);
    let bne = IType { opcode: 0x05, rs: 0, rt: 0, imm: 3, op: IOp::BNE };
    assert_eq!(comp.process_itype_instruction(&bne), Ok(true));
}

#[test]
fn memory_dump_steps_by_four_and_counts_both_ends() {
    let comp = boot(&[0x1111_1111, 0x2222_2222, 0x3333_3333]);
    assert_eq!(
        comp.mdump(0x0040_0000, 0x0040_0008),
        vec![
            MemoryLine { address: 0x0040_0000, value: Some(0x1111_1111) },
            MemoryLine { address: 0x0040_0004, value: Some(0x2222_2222) },
            MemoryLine { address: 0x0040_0008, value: Some(0x3333_3333) },
        ]
    );
    assert_eq!(
        comp.mdump(0x0040_0004, 0x0040_0004),
        vec![MemoryLine { address: 0x0040_0004, value: Some(0x2222_2222) }]
    );
    assert_eq!(
        comp.mdump(0x0040_0004, 0x0040_0007),
        vec![MemoryLine { address: 0x0040_0004, value: Some(0x2222_2222) }]
    );
}

#[test]
fn memory_dump_of_an_empty_range() {
    let comp = boot(&[0x1111_1111]);
    assert_eq!(comp.mdump(0x0040_0008, 0x0040_0004), Vec::new());
    assert_eq!(comp.mdump(1, 0), Vec::new());
}

#[test]
fn memory_dump_marks_what_memory_does_not_serve() {
    let mut comp = boot(&[0x1111_1111]);
    assert!(comp.mem_write_32(0x004F_FFFC, 0xAAAA_AAAA));
    assert_eq!(
        comp.mdump(0x004F_FFFC, 0x0050_0004),
        vec![
            MemoryLine { address: 0x004F_FFFC, value: Some(0xAAAA_AAAA) },
            MemoryLine { address: 0x0050_0000, value: None },
            MemoryLine { address: 0x0050_0004, value: None },
        ]
    );
    assert_eq!(
        comp.mdump(0x004F_FFFA, 0x004F_FFFE),
        vec![
            MemoryLine { address: 0x004F_FFFA, value: Some(0xAAAA_0000) },
            MemoryLine { address: 0x004F_FFFE, value: None },
        ]
    );
}

#[test]
fn memory_dump_at_the_top_of_the_address_space() {
    let comp = boot(&[0x1111_1111]);
    assert_eq!(
        comp.mdump(0xFFFF_FFF8, 0xFFFF_FFFF),
        vec![
            MemoryLine { address: 0xFFFF_FFF8, value: None },
            MemoryLine { address: 0xFFFF_FFFC, value: None },
        ]
    );
    assert_eq!(
        comp.mdump(0xFFFF_FFFF, 0xFFFF_FFFF),
        vec![MemoryLine { address: 0xFFFF_FFFF, value: None }]
    );
}

#[test]
fn memory_dump_does_not_change_the_machine() {
    let comp = boot(&[0x1111_1111]);
    let _ = comp.mdump(0x0040_0000, 0x0040_0100);
    let _ = comp.rdump();
    assert_eq!(comp.instr_count(), 0);
    assert!(comp.is_running());
    assert_eq!(comp.curr_state().pc(), 0x0040_0000);
}

#[test]
fn register_dump_shows_current() {
    let mut comp = counting_program();
    assert!(comp.curr_state_mut().set_reg(4, 44));
    assert!(comp.next_state_mut().set_reg(4, 44));
    assert!(comp.next_state_mut().set_reg(5, 55));
    comp.curr_state_mut().set_hi(0x1234);
    comp.curr_state_mut().set_lo(0x5678);
    let dump = comp.rdump();
    assert_eq!(dump.instr_count, 0);
    assert_eq!(dump.pc, 0x0040_0000);
    assert_eq!(dump.hi, 0x1234);
    assert_eq!(dump.lo, 0x5678);
    let mut expected = [0u32; 32];
    expected[4] = 44;
    assert_eq!(dump.regs, expected);
    comp.run(2);
    let dump = comp.rdump();
    assert_eq!(dump.instr_count, 2);
    assert_eq!(dump.pc, 0x0040_0008);
    expected[5] = 55;
    expected[8] = 2;
    assert_eq!(dump.regs, expected);
    assert_eq!((dump.hi, dump.lo), (0, 0));
}

#[test]
fn mutable_snapshots_reach_the_machine() {
    let mut comp = boot(&[0]);
    comp.curr_state_mut().set_hi(1);
    comp.next_state_mut().set_hi(2);
    comp.curr_state_mut().set_lo(3);
    comp.next_state_mut().set_lo(4);
    comp.curr_state_mut().set_pc(0x10);
    comp.next_state_mut().set_pc(0x20);
    assert_eq!((comp.curr_state().hi(), comp.next_state().hi()), (1, 2));
    assert_eq!((comp.curr_state().lo(), comp.next_state().lo()), (3, 4));
    assert_eq!((comp.curr_state().pc(), comp.next_state().pc()), (0x10, 0x20));
    assert_eq!(comp.instr_count(), 0);
    assert!(comp.is_running());
}

#[test]
fn machine_memory_accessors() {
    let mut comp = boot(&[0]);
    assert!(comp.mem_write_32(0x1000_0000, 0x1122_3344));
    assert!(comp.mem_write_16(0x1000_0004, 0x5566));
    assert!(comp.mem_write_8(0x1000_0006, 0x77));
    assert!(comp.mem_write_bytes(0x1000_0007, &[0x88, 0x99]));
    assert_eq!(comp.mem_read_32(0x1000_0000), Some(0x1122_3344));
    assert_eq!(comp.mem_read_32(0x1000_0004), Some(0x8877_5566));
    assert_eq!(comp.mem_read_16(0x1000_0007), Some(0x9988));
    assert_eq!(comp.mem_read_8(0x1000_0008), Some(0x99));
    assert!(!comp.mem_write_32(0x2000_0000, 1));
    assert!(!comp.mem_write_16(0x2000_0000, 1));
    assert!(!comp.mem_write_8(0x2000_0000, 1));
    assert!(!comp.mem_write_bytes(0x2000_0000, &[1]));
    assert_eq!(comp.mem_read_32(0x2000_0000), None);
    assert_eq!(comp.mem_read_16(0x2000_0000), None);
    assert_eq!(comp.mem_read_8(0x2000_0000), None);
    assert!(comp.is_running());
}
