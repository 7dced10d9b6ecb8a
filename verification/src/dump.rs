//! The text of the dumps.
//!
//! All text is ASCII. A word is shown as `0x` and eight upper-case
//! hexadecimal digits; counts and register numbers are shown in decimal
//! without leading zeros.

use crate::isa::{CpuView, MIPS_REGS};
use vstd::prelude::*;
use vstd::string::is_ascii;
use vstd::string::is_ascii_spec_bytes;

verus! {

/// One line of a memory dump: an address and the word there, if the
/// memory serves a read of it.
#[derive(Debug, Clone, Copy, PartialEq, Eq)]
pub struct MemoryLine {
    pub address: u32,
    pub value: Option<u32>,
}

/// The registers of `current` and the instruction count, as a dump shows
/// them.
#[derive(Debug, Clone, Copy, PartialEq, Eq)]
pub struct RegisterDump {
    pub instr_count: u64,
    pub pc: u32,
    pub regs: [u32; MIPS_REGS],
    pub hi: u32,
    pub lo: u32,
}

impl RegisterDump {
    /// The snapshot that the dump shows.
    pub open spec fn cpu(self) -> CpuView {
        CpuView { pc: self.pc, regs: self.regs@, hi: self.hi, lo: self.lo }
    }
}

/// The bytes of a text of ASCII characters.
pub open spec fn ascii(text: Seq<char>) -> Seq<u8> {
    Seq::new(text.len(), |i: int| text[i] as u8)
}

/// The character for a decimal digit.
pub open spec fn decimal_digit(digit: int) -> u8 {
    ('0' as u8 + digit) as u8
}

/// The character for a hexadecimal digit, in upper case.
pub open spec fn hex_digit(digit: int) -> u8 {
    if digit < 10 {
        ('0' as u8 + digit) as u8
    } else {
        ('A' as u8 + digit - 10) as u8
    }
}

/// A word in hexadecimal: `0x` and eight digits, the most significant
/// first.
pub open spec fn hex_text(value: u32) -> Seq<u8> {
    seq![
        '0' as u8,
        'x' as u8,
        hex_digit(value as int / 0x1000_0000),
        hex_digit((value as int / 0x100_0000) % 16),
        hex_digit((value as int / 0x10_0000) % 16),
        hex_digit((value as int / 0x1_0000) % 16),
        hex_digit((value as int / 0x1000) % 16),
        hex_digit((value as int / 0x100) % 16),
        hex_digit((value as int / 0x10) % 16),
        hex_digit(value as int % 16),
    ]
}

/// A number in decimal, without leading zeros.
pub open spec fn decimal_text(value: nat) -> Seq<u8>
    decreases value,
{
    if value < 10 {
        seq![decimal_digit(value as int)]
    } else {
        decimal_text(value / 10).push(decimal_digit(value as int % 10))
    }
}

/// The line of a memory dump for one address.
pub open spec fn memory_line_text(line: MemoryLine) -> Seq<u8> {
    ascii("    "@) + hex_text(line.address) + ascii("  ("@) + decimal_text(line.address as nat)
        + ascii(") : "@) + (match line.value {
        Some(value) => hex_text(value),
        None => ascii("<undefined address>"@),
    }) + ascii("\n"@)
}

/// The lines of a memory dump, one after the other.
pub open spec fn memory_lines_text(lines: Seq<MemoryLine>) -> Seq<u8>
    decreases lines.len(),
{
    if lines.len() == 0 {
        Seq::empty()
    } else {
        memory_lines_text(lines.drop_last()) + memory_line_text(lines.last())
    }
}

/// A memory dump: a heading that names the range, a rule, the lines, and
/// an empty line.
pub open spec fn memory_text(start: u32, stop: u32, lines: Seq<MemoryLine>) -> Seq<u8> {
    ascii("\nMemory content ["@) + hex_text(start) + ascii(".."@) + hex_text(stop) + ascii(
        "] :\n"@,
    ) + ascii("-----------------------------------------\n"@) + memory_lines_text(lines) + ascii(
        "\n"@,
    )
}

/// The line of a register dump for one general register.
pub open spec fn register_line_text(index: nat, value: u32) -> Seq<u8> {
    ascii("R"@) + decimal_text(index) + ascii(": "@) + hex_text(value) + ascii("\n"@)
}

/// The lines of a register dump for the first `count` general registers.
pub open spec fn register_lines_text(regs: Seq<u32>, count: nat) -> Seq<u8>
    decreases count,
{
    if count == 0 {
        Seq::empty()
    } else {
        register_lines_text(regs, (count - 1) as nat) + register_line_text(
            (count - 1) as nat,
            regs[count - 1],
        )
    }
}

/// A register dump: a heading, a rule, the instruction count, the program
/// counter, the general registers, HI and LO, and an empty line.
pub open spec fn register_text(instr_count: nat, cpu: CpuView) -> Seq<u8> {
    ascii("\n Current register/bus values :\n"@) + ascii("-------------------------------\n"@)
        + ascii("Instruction count : "@) + decimal_text(instr_count) + ascii("\n"@) + ascii(
        "PC                : "@,
    ) + hex_text(cpu.pc) + ascii("\n"@) + ascii("Registers:\n"@) + register_lines_text(
        cpu.regs,
        MIPS_REGS as nat,
    ) + ascii("HI: "@) + hex_text(cpu.hi) + ascii("\n"@) + ascii("LO: "@) + hex_text(cpu.lo)
        + ascii("\n"@) + ascii("\n"@)
}

/// Appends a text of ASCII characters.
pub(crate) fn push_text(out: &mut Vec<u8>, text: &str)
    requires
        is_ascii(text),
    ensures
        final(out)@ == old(out)@ + ascii(text@),
{
    broadcast use is_ascii_spec_bytes;

    out.extend_from_slice(text.as_bytes());
    assert(out@ =~= old(out)@ + ascii(text@));
}

/// The character for a hexadecimal digit.
fn hex_char(digit: u32) -> (c: u8)
    requires
        digit < 16,
    ensures
        c == hex_digit(digit as int),
{
    if digit < 10 {
        '0' as u8 + digit as u8
    } else {
        'A' as u8 + (digit - 10) as u8
    }
}

/// Appends a word in hexadecimal.
pub fn push_hex(out: &mut Vec<u8>, value: u32)
    ensures
        final(out)@ == old(out)@ + hex_text(value),
{
    out.push('0' as u8);
    out.push('x' as u8);
    out.push(hex_char(value / 0x1000_0000));
    out.push(hex_char((value / 0x100_0000) % 16));
    out.push(hex_char((value / 0x10_0000) % 16));
    out.push(hex_char((value / 0x1_0000) % 16));
    out.push(hex_char((value / 0x1000) % 16));
    out.push(hex_char((value / 0x100) % 16));
    out.push(hex_char((value / 0x10) % 16));
    out.push(hex_char(value % 16));
    assert(out@ =~= old(out)@ + hex_text(value));
}

/// Appends a number in decimal.
pub fn push_decimal(out: &mut Vec<u8>, value: u64)
    ensures
        final(out)@ == old(out)@ + decimal_text(value as nat),
{
    let mut rest: u64 = value;
    let mut low: Vec<u8> = Vec::new();
    let ghost mut tail: Seq<u8> = Seq::empty();
    while rest >= 10
        invariant
            decimal_text(value as nat) == decimal_text(rest as nat) + tail,
            low@.len() == tail.len(),
            forall|j: int| 0 <= j < low@.len() ==> low@[j] == tail[tail.len() - 1 - j],
        decreases rest,
    {
        let digit: u8 = '0' as u8 + (rest % 10) as u8;
        proof {
            let longer = seq![digit] + tail;
            assert(decimal_text(rest as nat) + tail =~= decimal_text((rest / 10) as nat) + longer);
            tail = longer;
        }
        low.push(digit);
        rest = rest / 10;
    }
    out.push('0' as u8 + rest as u8);
    let mut k: usize = low.len();
    while k > 0
        invariant
            k <= low@.len(),
            low@.len() == tail.len(),
            forall|j: int| 0 <= j < low@.len() ==> low@[j] == tail[tail.len() - 1 - j],
            out@ == old(out)@ + decimal_text(rest as nat) + tail.take(tail.len() - k),
        decreases k,
    {
        k -= 1;
        out.push(low[k]);
        assert(tail.take(tail.len() - k) =~= tail.take(tail.len() - k - 1).push(low@[k as int]));
        assert(out@ =~= old(out)@ + decimal_text(rest as nat) + tail.take(tail.len() - k));
    }
    assert(tail.take(tail.len() as int) =~= tail);
    assert(out@ =~= old(out)@ + decimal_text(value as nat));
}

/// Appends the line of a memory dump for one address.
pub fn push_memory_line(out: &mut Vec<u8>, line: &MemoryLine)
    ensures
        final(out)@ == old(out)@ + memory_line_text(*line),
{
    proof {
        reveal_strlit("    ");
        reveal_strlit("  (");
        reveal_strlit(") : ");
        reveal_strlit("<undefined address>");
        reveal_strlit("\n");
    }
    push_text(out, "    ");
    push_hex(out, line.address);
    push_text(out, "  (");
    push_decimal(out, line.address as u64);
    push_text(out, ") : ");
    match line.value {
        Some(value) => push_hex(out, value),
        None => push_text(out, "<undefined address>"),
    }
    push_text(out, "\n");
    assert(out@ =~= old(out)@ + memory_line_text(*line));
}

/// Appends a memory dump of the given lines under a heading that names
/// the range from `start` to `stop`.
pub fn push_memory(out: &mut Vec<u8>, start: u32, stop: u32, lines: &Vec<MemoryLine>)
    ensures
        final(out)@ == old(out)@ + memory_text(start, stop, lines@),
{
    proof {
        reveal_strlit("\nMemory content [");
        reveal_strlit("..");
        reveal_strlit("] :\n");
        reveal_strlit("-----------------------------------------\n");
        reveal_strlit("\n");
    }
    push_text(out, "\nMemory content [");
    push_hex(out, start);
    push_text(out, "..");
    push_hex(out, stop);
    push_text(out, "] :\n");
    push_text(out, "-----------------------------------------\n");
    let ghost head = out@;
    assert(lines@.take(0) =~= Seq::<MemoryLine>::empty());
    let mut i: usize = 0;
    while i < lines.len()
        invariant
            i <= lines@.len(),
            out@ == head + memory_lines_text(lines@.take(i as int)),
        decreases lines@.len() - i,
    {
        proof {
            let longer = lines@.take(i + 1);
            assert(longer.drop_last() =~= lines@.take(i as int));
            assert(longer.last() == lines@[i as int]);
        }
        push_memory_line(out, &lines[i]);
        assert(out@ =~= head + memory_lines_text(lines@.take(i + 1)));
        i += 1;
    }
    assert(lines@.take(i as int) =~= lines@);
    push_text(out, "\n");
    assert(out@ =~= old(out)@ + memory_text(start, stop, lines@));
}

/// Appends the line of a register dump for one general register.
pub fn push_register_line(out: &mut Vec<u8>, index: usize, value: u32)
    ensures
        final(out)@ == old(out)@ + register_line_text(index as nat, value),
{
    proof {
        reveal_strlit("R");
        reveal_strlit(": ");
        reveal_strlit("\n");
    }
    push_text(out, "R");
    push_decimal(out, index as u64);
    push_text(out, ": ");
    push_hex(out, value);
    push_text(out, "\n");
    assert(out@ =~= old(out)@ + register_line_text(index as nat, value));
}

/// Appends a register dump.
pub fn push_registers(out: &mut Vec<u8>, dump: &RegisterDump)
    ensures
        final(out)@ == old(out)@ + register_text(dump.instr_count as nat, dump.cpu()),
{
    proof {
        reveal_strlit("\n Current register/bus values :\n");
        reveal_strlit("-------------------------------\n");
        reveal_strlit("Instruction count : ");
        reveal_strlit("PC                : ");
        reveal_strlit("Registers:\n");
        reveal_strlit("HI: ");
        reveal_strlit("LO: ");
        reveal_strlit("\n");
    }
    push_text(out, "\n Current register/bus values :\n");
    push_text(out, "-------------------------------\n");
    push_text(out, "Instruction count : ");
    push_decimal(out, dump.instr_count);
    push_text(out, "\n");
    push_text(out, "PC                : ");
    push_hex(out, dump.pc);
    push_text(out, "\n");
    push_text(out, "Registers:\n");
    let ghost head = out@;
    let mut i: usize = 0;
    while i < MIPS_REGS
        invariant
            i <= MIPS_REGS,
            out@ == head + register_lines_text(dump.regs@, i as nat),
        decreases MIPS_REGS - i,
    {
        push_register_line(out, i, dump.regs[i]);
        assert(out@ =~= head + register_lines_text(dump.regs@, (i + 1) as nat));
        i += 1;
    }
    push_text(out, "HI: ");
    push_hex(out, dump.hi);
    push_text(out, "\n");
    push_text(out, "LO: ");
    push_hex(out, dump.lo);
    push_text(out, "\n");
    push_text(out, "\n");
    assert(out@ =~= old(out)@ + register_text(dump.instr_count as nat, dump.cpu()));
}

} // verus!
