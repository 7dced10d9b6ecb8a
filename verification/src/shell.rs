//! The command language of the prompt.
//!
//! A line holds words separated by white space. The first word names the
//! command; the words after it are its parameters, unsigned decimal
//! numbers. Words past the last parameter are ignored. Reading the line
//! and writing out the text of the reply are left to the caller.

use crate::dump::{
    ascii, decimal_digit, decimal_text, hex_text, memory_text, push_decimal, push_hex, push_text,
    register_text,
};
use crate::isa::{affordable, lemma_run_split, run, HaltCause, MachineView, MIPS_REGS};
use crate::sim::{dump_lines, MipsComputer};
use vstd::prelude::*;

verus! {

/// The commands by name.
#[derive(Debug, Clone, Copy, PartialEq, Eq)]
pub enum Verb {
    Go,
    Run,
    Mdump,
    Rdump,
    Input,
    High,
    Low,
    Help,
    Quit,
}

/// A command with its parameters.
#[derive(Debug, Clone, Copy, PartialEq, Eq)]
pub enum Command {
    /// `go`: run until the machine halts.
    Go,
    /// `run N`: execute up to N cycles.
    Run(u32),
    /// `mdump LOW HIGH`: show the words from LOW to HIGH.
    Mdump(u32, u32),
    /// `rdump`: show the registers.
    Rdump,
    /// `input R V`: set general register R to V in both snapshots.
    Input(usize, u32),
    /// `high V`: set HI to V in both snapshots.
    High(u32),
    /// `low V`: set LO to V in both snapshots.
    Low(u32),
    /// `?`: show the help text.
    Help,
    /// `quit`: leave.
    Quit,
}

/// Why a line is no command.
#[derive(Debug, Clone, Copy, PartialEq, Eq)]
pub enum CommandError {
    /// The first word names no command, or the line has no word.
    InvalidCommand,
    /// The command has fewer parameters than it takes.
    MissingParam(Verb),
    /// A parameter is not a decimal number, or is too large.
    BadNumber(Verb),
}

/// What the caller is to show after a command.
#[derive(Debug, Clone, Copy, PartialEq, Eq)]
pub enum Reply {
    /// `go` or `run` on a halted machine: nothing was executed.
    Refused,
    /// `go` has run the machine until it halted.
    Went,
    /// `run` has executed up to this number of cycles.
    Ran(u32),
    /// The words of memory from the first address to the second.
    Memory(u32, u32),
    /// The registers.
    Registers,
    /// A register was set, or the command named a register that does not
    /// exist and nothing was set.
    Done,
    /// The help text.
    Help,
    /// Nothing: the session ends.
    Quit,
}

/// Whether a byte is white space: a blank, or one of the five control
/// characters from tab to carriage return.
pub open spec fn is_space(byte: u8) -> bool {
    byte == ' ' as u8 || '\t' as u8 <= byte <= '\r' as u8
}

/// Whether a byte is a decimal digit.
pub open spec fn is_digit(byte: u8) -> bool {
    '0' as u8 <= byte <= '9' as u8
}

/// The first position from `from` on that holds no white space, or the
/// length of the line.
pub open spec fn skip_spaces(line: Seq<u8>, from: int) -> int
    decreases line.len() - from,
{
    if 0 <= from < line.len() && is_space(line[from]) {
        skip_spaces(line, from + 1)
    } else {
        from
    }
}

/// The first position from `from` on that holds white space, or the
/// length of the line.
pub open spec fn skip_word(line: Seq<u8>, from: int) -> int
    decreases line.len() - from,
{
    if 0 <= from < line.len() && !is_space(line[from]) {
        skip_word(line, from + 1)
    } else {
        from
    }
}

/// Where word number `index` of the line starts, counting from 0; the
/// length of the line where it has no such word.
pub open spec fn word_start(line: Seq<u8>, index: nat) -> int
    decreases index,
{
    if index == 0 {
        skip_spaces(line, 0)
    } else {
        skip_spaces(line, skip_word(line, word_start(line, (index - 1) as nat)))
    }
}

/// Word number `index` of the line; empty where it has no such word.
pub open spec fn word(line: Seq<u8>, index: nat) -> Seq<u8> {
    line.subrange(word_start(line, index), skip_word(line, word_start(line, index)))
}

/// The number that a word of decimal digits denotes; nothing for the empty
/// word and for a word with any other byte.
pub open spec fn decimal(digits: Seq<u8>) -> Option<nat>
    decreases digits.len(),
{
    if digits.len() == 0 || !is_digit(digits.last()) {
        None
    } else if digits.len() == 1 {
        Some((digits.last() - '0' as u8) as nat)
    } else {
        match decimal(digits.drop_last()) {
            Some(value) => Some(10 * value + (digits.last() - '0' as u8) as nat),
            None => None,
        }
    }
}

/// The number that a word denotes, if it is one and is at most `max`.
pub open spec fn number(digits: Seq<u8>, max: nat) -> Option<nat> {
    match decimal(digits) {
        Some(value) => if value <= max {
            Some(value)
        } else {
            None
        },
        None => None,
    }
}

impl Verb {
    /// The word that names the command.
    pub open spec fn name(self) -> Seq<u8> {
        match self {
            Verb::Go => seq!['g' as u8, 'o' as u8],
            Verb::Run => seq!['r' as u8, 'u' as u8, 'n' as u8],
            Verb::Mdump => seq!['m' as u8, 'd' as u8, 'u' as u8, 'm' as u8, 'p' as u8],
            Verb::Rdump => seq!['r' as u8, 'd' as u8, 'u' as u8, 'm' as u8, 'p' as u8],
            Verb::Input => seq!['i' as u8, 'n' as u8, 'p' as u8, 'u' as u8, 't' as u8],
            Verb::High => seq!['h' as u8, 'i' as u8, 'g' as u8, 'h' as u8],
            Verb::Low => seq!['l' as u8, 'o' as u8, 'w' as u8],
            Verb::Help => seq!['?' as u8],
            Verb::Quit => seq!['q' as u8, 'u' as u8, 'i' as u8, 't' as u8],
        }
    }

    /// The number of parameters that the command takes.
    pub open spec fn arity(self) -> nat {
        match self {
            Verb::Mdump | Verb::Input => 2,
            Verb::Run | Verb::High | Verb::Low => 1,
            _ => 0,
        }
    }

    /// The number of parameters that the command takes.
    pub fn params(self) -> (n: usize)
        ensures
            n == self.arity(),
    {
        match self {
            Verb::Mdump | Verb::Input => 2,
            Verb::Run | Verb::High | Verb::Low => 1,
            _ => 0,
        }
    }
}

/// The command that a word names, if any.
pub open spec fn verb_named(name: Seq<u8>) -> Option<Verb> {
    if exists|verb: Verb| verb.name() == name {
        Some(choose|verb: Verb| verb.name() == name)
    } else {
        None
    }
}

/// The command that a line holds.
///
/// A command with too few words after its name lacks a parameter; only
/// then are the parameters read as numbers, the first one first.
pub open spec fn parse(line: Seq<u8>) -> Result<Command, CommandError> {
    match verb_named(word(line, 0)) {
        None => Err(CommandError::InvalidCommand),
        Some(verb) => {
            let first = word(line, 1);
            let second = word(line, 2);
            if verb.arity() >= 1 && first.len() == 0 || verb.arity() >= 2 && second.len() == 0 {
                Err(CommandError::MissingParam(verb))
            } else {
                match verb {
                    Verb::Go => Ok(Command::Go),
                    Verb::Rdump => Ok(Command::Rdump),
                    Verb::Help => Ok(Command::Help),
                    Verb::Quit => Ok(Command::Quit),
                    Verb::Run => match number(first, u32::MAX as nat) {
                        Some(n) => Ok(Command::Run(n as u32)),
                        None => Err(CommandError::BadNumber(verb)),
                    },
                    Verb::High => match number(first, u32::MAX as nat) {
                        Some(v) => Ok(Command::High(v as u32)),
                        None => Err(CommandError::BadNumber(verb)),
                    },
                    Verb::Low => match number(first, u32::MAX as nat) {
                        Some(v) => Ok(Command::Low(v as u32)),
                        None => Err(CommandError::BadNumber(verb)),
                    },
                    Verb::Mdump => match (
                        number(first, u32::MAX as nat),
                        number(second, u32::MAX as nat),
                    ) {
                        (Some(low), Some(high)) => Ok(Command::Mdump(low as u32, high as u32)),
                        _ => Err(CommandError::BadNumber(verb)),
                    },
                    Verb::Input => match (
                        number(first, usize::MAX as nat),
                        number(second, u32::MAX as nat),
                    ) {
                        (Some(reg), Some(v)) => Ok(Command::Input(reg as usize, v as u32)),
                        _ => Err(CommandError::BadNumber(verb)),
                    },
                }
            }
        },
    }
}

/// What a command does to the machine.
pub open spec fn command_effect(m: MachineView, command: Command) -> MachineView {
    match command {
        Command::Go => run(m, (u64::MAX - m.instr_count) as nat),
        Command::Run(n) => run(m, affordable(m, n as nat)),
        Command::Input(reg, value) => if reg < MIPS_REGS {
            MachineView {
                current: m.current.with_reg(reg as int, value),
                next: m.next.with_reg(reg as int, value),
                ..m
            }
        } else {
            m
        },
        Command::High(value) => MachineView {
            current: m.current.with_hi_lo(value, m.current.lo),
            next: m.next.with_hi_lo(value, m.next.lo),
            ..m
        },
        Command::Low(value) => MachineView {
            current: m.current.with_hi_lo(m.current.hi, value),
            next: m.next.with_hi_lo(m.next.hi, value),
            ..m
        },
        _ => m,
    }
}

/// What the caller is to show after a command on the machine `m`.
pub open spec fn command_reply(m: MachineView, command: Command) -> Reply {
    match command {
        Command::Go => if m.running() {
            Reply::Went
        } else {
            Reply::Refused
        },
        Command::Run(n) => if m.running() {
            Reply::Ran(n)
        } else {
            Reply::Refused
        },
        Command::Mdump(low, high) => Reply::Memory(low, high),
        Command::Rdump => Reply::Registers,
        Command::Input(_, _) | Command::High(_) | Command::Low(_) => Reply::Done,
        Command::Help => Reply::Help,
        Command::Quit => Reply::Quit,
    }
}

/// The help: one line for each command.
pub open spec fn help_text() -> Seq<u8> {
    ascii("----------------MIPS ISIM Help------------------------\n"@) + ascii(
        "go                    - run program to completion     \n"@,
    ) + ascii("run n                 - execute program for n instrs  \n"@) + ascii(
        "mdump low high        - dump memory from low to high  \n"@,
    ) + ascii("rdump                 - dump the register & bus value \n"@) + ascii(
        "input reg_num reg_val - set GPR reg_num to reg_val    \n"@,
    ) + ascii("high value            - set the HI register to value  \n"@) + ascii(
        "low value             - set the LO register to value  \n"@,
    ) + ascii("?                     - display this help menu        \n"@) + ascii(
        "quit                  - exit the program              \n\n"@,
    )
}

/// Why the machine stopped, in words.
pub open spec fn cause_text(cause: HaltCause) -> Seq<u8> {
    match cause {
        HaltCause::FetchOutsideMemory => ascii("program counter outside memory"@),
        HaltCause::ZeroWord => ascii("zero word fetched"@),
        HaltCause::ExitRequested => ascii("exit requested"@),
        HaltCause::UnknownOpcode => ascii("unknown instruction"@),
        HaltCause::LoadOutsideMemory(address) => ascii("load from invalid address "@) + hex_text(
            address,
        ),
        HaltCause::StoreOutsideMemory(address) => ascii("store to invalid address "@) + hex_text(
            address,
        ),
    }
}

/// The note that a machine has halted, with the cause; nothing for a
/// machine that runs.
pub open spec fn halt_text(halted: Option<HaltCause>) -> Seq<u8> {
    match halted {
        Some(cause) => ascii("Simulator halted: "@) + cause_text(cause) + ascii("\n\n"@),
        None => Seq::empty(),
    }
}

/// What is shown for a reply, given the machine as the command left it.
pub open spec fn reply_text(m: MachineView, reply: Reply) -> Seq<u8> {
    match reply {
        Reply::Refused => ascii("Can't simulate, Simulator halted\n\n"@),
        Reply::Went => ascii("Simulating...\n\n"@) + halt_text(m.halted),
        Reply::Ran(cycles) => ascii("Simulating for "@) + decimal_text(cycles as nat) + ascii(
            " cycles...\n\n"@,
        ) + halt_text(m.halted),
        Reply::Memory(start, stop) => memory_text(start, stop, dump_lines(m.memory, start, stop)),
        Reply::Registers => register_text(m.instr_count, m.current),
        Reply::Done => Seq::empty(),
        Reply::Help => help_text(),
        Reply::Quit => ascii("Bye.\n"@),
    }
}

/// What is shown for a line that is no command.
pub open spec fn error_text(error: CommandError) -> Seq<u8> {
    match error {
        CommandError::InvalidCommand => ascii("Invalid Command\n"@),
        CommandError::MissingParam(verb) => ascii("Error: "@) + verb.name() + ascii(
            " requires "@,
        ) + decimal_text(verb.arity()) + (if verb.arity() == 1 {
            ascii(" param\n"@)
        } else {
            ascii(" params\n"@)
        }),
        CommandError::BadNumber(verb) => ascii("Error: "@) + verb.name() + ascii(
            " takes decimal numbers\n"@,
        ),
    }
}

/// The decimal text of a number reads back as that number.
pub proof fn lemma_decimal_text_reads_back(value: nat)
    ensures
        decimal(decimal_text(value)) == Some(value),
    decreases value,
{
    if value >= 10 {
        lemma_decimal_text_reads_back(value / 10);
        let text = decimal_text(value);
        assert(text.drop_last() =~= decimal_text(value / 10));
        assert(text.last() == decimal_digit(value as int % 10));
    }
}

/// Whether a byte is white space.
fn is_space_byte(byte: u8) -> (r: bool)
    ensures
        r == is_space(byte),
{
    byte == ' ' as u8 || ('\t' as u8 <= byte && byte <= '\r' as u8)
}

/// The first position from `from` on that holds no white space.
fn scan_spaces(line: &[u8], from: usize) -> (to: usize)
    requires
        from <= line@.len(),
    ensures
        to == skip_spaces(line@, from as int),
        from <= to <= line@.len(),
{
    let mut i: usize = from;
    while i < line.len() && is_space_byte(line[i])
        invariant
            from <= i <= line@.len(),
            skip_spaces(line@, from as int) == skip_spaces(line@, i as int),
        decreases line@.len() - i,
    {
        i += 1;
    }
    i
}

/// The first position from `from` on that holds white space.
fn scan_word(line: &[u8], from: usize) -> (to: usize)
    requires
        from <= line@.len(),
    ensures
        to == skip_word(line@, from as int),
        from <= to <= line@.len(),
{
    let mut i: usize = from;
    while i < line.len() && !is_space_byte(line[i])
        invariant
            from <= i <= line@.len(),
            skip_word(line@, from as int) == skip_word(line@, i as int),
        decreases line@.len() - i,
    {
        i += 1;
    }
    i
}

/// Whether the bytes of the line from `start` to `end` are those of
/// `name`.
fn same_word(line: &[u8], start: usize, end: usize, name: &[u8]) -> (same: bool)
    requires
        start <= end <= line@.len(),
    ensures
        same == (line@.subrange(start as int, end as int) == name@),
{
    if end - start != name.len() {
        return false;
    }
    let mut i: usize = 0;
    while i < name.len()
        invariant
            start <= end <= line@.len(),
            end - start == name@.len(),
            i <= name@.len(),
            forall|j: int| 0 <= j < i ==> line@[start + j] == name@[j],
        decreases name@.len() - i,
    {
        if line[start + i] != name[i] {
            assert(line@.subrange(start as int, end as int)[i as int] != name@[i as int]);
            return false;
        }
        i += 1;
    }
    assert(line@.subrange(start as int, end as int) =~= name@);
    true
}

/// A number never gets smaller by a digit more.
proof fn lemma_decimal_grows(digits: Seq<u8>, len: int)
    requires
        0 < len <= digits.len(),
        decimal(digits) is Some,
    ensures
        decimal(digits.take(len)) is Some,
        decimal(digits.take(len)).unwrap() <= decimal(digits).unwrap(),
    decreases digits.len(),
{
    if len == digits.len() {
        assert(digits.take(len) =~= digits);
    } else {
        assert(digits.drop_last().take(len) =~= digits.take(len));
        lemma_decimal_grows(digits.drop_last(), len);
    }
}

/// A word with a byte that is no digit is no number.
proof fn lemma_decimal_digits(digits: Seq<u8>, at: int)
    requires
        0 <= at < digits.len(),
        !is_digit(digits[at]),
    ensures
        decimal(digits) is None,
    decreases digits.len(),
{
    if at < digits.len() - 1 {
        lemma_decimal_digits(digits.drop_last(), at);
    }
}

/// Reads the bytes of the line from `start` to `end` as a decimal number
/// of at most `max`.
fn parse_number(line: &[u8], start: usize, end: usize, max: u64) -> (value: Option<u64>)
    requires
        start <= end <= line@.len(),
    ensures
        value == (match number(line@.subrange(start as int, end as int), max as nat) {
            Some(v) => Some(v as u64),
            None => None,
        }),
{
    let ghost digits = line@.subrange(start as int, end as int);
    if start == end {
        return None;
    }
    let mut value: u64 = 0;
    let mut i: usize = start;
    while i < end
        invariant
            start <= i <= end <= line@.len(),
            digits == line@.subrange(start as int, end as int),
            value <= max,
            i > start ==> decimal(digits.take(i - start)) == Some(value as nat),
            i == start ==> value == 0,
        decreases end - i,
    {
        let byte: u8 = line[i];
        if byte < '0' as u8 || byte > '9' as u8 {
            proof {
                lemma_decimal_digits(digits, i - start);
            }
            return None;
        }
        let digit: u64 = (byte - '0' as u8) as u64;
        proof {
            let longer = digits.take(i - start + 1);
            assert(longer.last() == byte);
            assert(longer.drop_last() =~= digits.take(i - start));
        }
        if max < digit || value > (max - digit) / 10 {
            proof {
                if decimal(digits) is Some {
                    lemma_decimal_grows(digits, i - start + 1);
                }
            }
            return None;
        }
        value = value * 10 + digit;
        i += 1;
    }
    assert(digits.take(end - start) =~= digits);
    Some(value)
}

const NAME_GO: [u8; 2] = ['g' as u8, 'o' as u8];

const NAME_RUN: [u8; 3] = ['r' as u8, 'u' as u8, 'n' as u8];

const NAME_MDUMP: [u8; 5] = ['m' as u8, 'd' as u8, 'u' as u8, 'm' as u8, 'p' as u8];

const NAME_RDUMP: [u8; 5] = ['r' as u8, 'd' as u8, 'u' as u8, 'm' as u8, 'p' as u8];

const NAME_INPUT: [u8; 5] = ['i' as u8, 'n' as u8, 'p' as u8, 'u' as u8, 't' as u8];

const NAME_HIGH: [u8; 4] = ['h' as u8, 'i' as u8, 'g' as u8, 'h' as u8];

const NAME_LOW: [u8; 3] = ['l' as u8, 'o' as u8, 'w' as u8];

const NAME_HELP: [u8; 1] = ['?' as u8];

const NAME_QUIT: [u8; 4] = ['q' as u8, 'u' as u8, 'i' as u8, 't' as u8];

/// Appends the word that names a command.
pub fn push_name(out: &mut Vec<u8>, verb: Verb)
    ensures
        final(out)@ == old(out)@ + verb.name(),
{
    match verb {
        Verb::Go => out.extend_from_slice(NAME_GO.as_slice()),
        Verb::Run => out.extend_from_slice(NAME_RUN.as_slice()),
        Verb::Mdump => out.extend_from_slice(NAME_MDUMP.as_slice()),
        Verb::Rdump => out.extend_from_slice(NAME_RDUMP.as_slice()),
        Verb::Input => out.extend_from_slice(NAME_INPUT.as_slice()),
        Verb::High => out.extend_from_slice(NAME_HIGH.as_slice()),
        Verb::Low => out.extend_from_slice(NAME_LOW.as_slice()),
        Verb::Help => out.extend_from_slice(NAME_HELP.as_slice()),
        Verb::Quit => out.extend_from_slice(NAME_QUIT.as_slice()),
    }
    assert(out@ =~= old(out)@ + verb.name());
}

/// The command that the bytes of the line from `start` to `end` name.
fn parse_verb(line: &[u8], start: usize, end: usize) -> (verb: Option<Verb>)
    requires
        start <= end <= line@.len(),
    ensures
        verb == verb_named(line@.subrange(start as int, end as int)),
{
    let ghost name = line@.subrange(start as int, end as int);
    if same_word(line, start, end, NAME_GO.as_slice()) {
        assert(Verb::Go.name() =~= name);
        Some(Verb::Go)
    } else if same_word(line, start, end, NAME_RUN.as_slice()) {
        assert(Verb::Run.name() =~= name);
        Some(Verb::Run)
    } else if same_word(line, start, end, NAME_MDUMP.as_slice()) {
        assert(Verb::Mdump.name() =~= name);
        Some(Verb::Mdump)
    } else if same_word(line, start, end, NAME_RDUMP.as_slice()) {
        assert(Verb::Rdump.name() =~= name);
        Some(Verb::Rdump)
    } else if same_word(line, start, end, NAME_INPUT.as_slice()) {
        assert(Verb::Input.name() =~= name);
        Some(Verb::Input)
    } else if same_word(line, start, end, NAME_HIGH.as_slice()) {
        assert(Verb::High.name() =~= name);
        Some(Verb::High)
    } else if same_word(line, start, end, NAME_LOW.as_slice()) {
        assert(Verb::Low.name() =~= name);
        Some(Verb::Low)
    } else if same_word(line, start, end, NAME_HELP.as_slice()) {
        assert(Verb::Help.name() =~= name);
        Some(Verb::Help)
    } else if same_word(line, start, end, NAME_QUIT.as_slice()) {
        assert(Verb::Quit.name() =~= name);
        Some(Verb::Quit)
    } else {
        assert forall|verb: Verb| verb.name() != name by {
            assert(NAME_GO@ =~= Verb::Go.name());
            assert(NAME_RUN@ =~= Verb::Run.name());
            assert(NAME_MDUMP@ =~= Verb::Mdump.name());
            assert(NAME_RDUMP@ =~= Verb::Rdump.name());
            assert(NAME_INPUT@ =~= Verb::Input.name());
            assert(NAME_HIGH@ =~= Verb::High.name());
            assert(NAME_LOW@ =~= Verb::Low.name());
            assert(NAME_HELP@ =~= Verb::Help.name());
            assert(NAME_QUIT@ =~= Verb::Quit.name());
        }
        None
    }
}

/// Reads a line as a command.
pub fn parse_command(line: &[u8]) -> (r: Result<Command, CommandError>)
    ensures
        r == parse(line@),
{
    let verb_start: usize = scan_spaces(line, 0);
    let verb_end: usize = scan_word(line, verb_start);
    let first_start: usize = scan_spaces(line, verb_end);
    let first_end: usize = scan_word(line, first_start);
    let second_start: usize = scan_spaces(line, first_end);
    let second_end: usize = scan_word(line, second_start);
    proof {
        reveal_with_fuel(word_start, 3);
    }
    let verb: Verb = match parse_verb(line, verb_start, verb_end) {
        Some(verb) => verb,
        None => {
            return Err(CommandError::InvalidCommand);
        },
    };
    let params: usize = verb.params();
    if params >= 1 && first_start == first_end || params >= 2 && second_start == second_end {
        return Err(CommandError::MissingParam(verb));
    }
    match verb {
        Verb::Go => Ok(Command::Go),
        Verb::Rdump => Ok(Command::Rdump),
        Verb::Help => Ok(Command::Help),
        Verb::Quit => Ok(Command::Quit),
        Verb::Run => match parse_number(line, first_start, first_end, u32::MAX as u64) {
            Some(n) => Ok(Command::Run(n as u32)),
            None => Err(CommandError::BadNumber(verb)),
        },
        Verb::High => match parse_number(line, first_start, first_end, u32::MAX as u64) {
            Some(v) => Ok(Command::High(v as u32)),
            None => Err(CommandError::BadNumber(verb)),
        },
        Verb::Low => match parse_number(line, first_start, first_end, u32::MAX as u64) {
            Some(v) => Ok(Command::Low(v as u32)),
            None => Err(CommandError::BadNumber(verb)),
        },
        Verb::Mdump => {
            let low: Option<u64> = parse_number(line, first_start, first_end, u32::MAX as u64);
            let high: Option<u64> = parse_number(line, second_start, second_end, u32::MAX as u64);
            match (low, high) {
                (Some(low), Some(high)) => Ok(Command::Mdump(low as u32, high as u32)),
                _ => Err(CommandError::BadNumber(verb)),
            }
        },
        Verb::Input => {
            let reg: Option<u64> = parse_number(line, first_start, first_end, usize::MAX as u64);
            let value: Option<u64> = parse_number(
                line,
                second_start,
                second_end,
                u32::MAX as u64,
            );
            match (reg, value) {
                (Some(reg), Some(value)) => Ok(Command::Input(reg as usize, value as u32)),
                _ => Err(CommandError::BadNumber(verb)),
            }
        },
    }
}

/// Carries out a command on the machine and says what is to be shown.
pub fn execute(comp: &mut MipsComputer, command: Command) -> (reply: Reply)
    ensures
        final(comp)@ == command_effect(old(comp)@, command),
        reply == command_reply(old(comp)@, command),
{
    proof {
        comp.lemma_view();
    }
    match command {
        Command::Go => {
            if comp.is_running() {
                comp.go();
                Reply::Went
            } else {
                proof {
                    lemma_run_split(comp@, (u64::MAX - comp@.instr_count) as nat, 0);
                }
                Reply::Refused
            }
        },
        Command::Run(num_cycles) => {
            if comp.is_running() {
                comp.run(num_cycles);
                Reply::Ran(num_cycles)
            } else {
                proof {
                    lemma_run_split(comp@, affordable(comp@, num_cycles as nat), 0);
                }
                Reply::Refused
            }
        },
        Command::Mdump(low, high) => Reply::Memory(low, high),
        Command::Rdump => Reply::Registers,
        Command::Input(reg, value) => {
            comp.curr_state_mut().set_reg(reg, value);
            comp.next_state_mut().set_reg(reg, value);
            Reply::Done
        },
        Command::High(value) => {
            comp.curr_state_mut().set_hi(value);
            comp.next_state_mut().set_hi(value);
            Reply::Done
        },
        Command::Low(value) => {
            comp.curr_state_mut().set_lo(value);
            comp.next_state_mut().set_lo(value);
            Reply::Done
        },
        Command::Help => Reply::Help,
        Command::Quit => Reply::Quit,
    }
}

/// Appends the note that the machine has halted, if it has.
pub fn push_halt(out: &mut Vec<u8>, halted: Option<HaltCause>)
    ensures
        final(out)@ == old(out)@ + halt_text(halted),
{
    proof {
        reveal_strlit("Simulator halted: ");
        reveal_strlit("program counter outside memory");
        reveal_strlit("zero word fetched");
        reveal_strlit("exit requested");
        reveal_strlit("unknown instruction");
        reveal_strlit("load from invalid address ");
        reveal_strlit("store to invalid address ");
        reveal_strlit("\n\n");
    }
    match halted {
        None => {},
        Some(cause) => {
            push_text(out, "Simulator halted: ");
            match cause {
                HaltCause::FetchOutsideMemory => push_text(out, "program counter outside memory"),
                HaltCause::ZeroWord => push_text(out, "zero word fetched"),
                HaltCause::ExitRequested => push_text(out, "exit requested"),
                HaltCause::UnknownOpcode => push_text(out, "unknown instruction"),
                HaltCause::LoadOutsideMemory(address) => {
                    push_text(out, "load from invalid address ");
                    push_hex(out, address);
                },
                HaltCause::StoreOutsideMemory(address) => {
                    push_text(out, "store to invalid address ");
                    push_hex(out, address);
                },
            }
            push_text(out, "\n\n");
        },
    }
    assert(out@ =~= old(out)@ + halt_text(halted));
}

/// Appends what is shown for a reply, given the machine as the command
/// left it.
pub fn push_reply(out: &mut Vec<u8>, comp: &MipsComputer, reply: Reply)
    ensures
        final(out)@ == old(out)@ + reply_text(comp@, reply),
{
    proof {
        reveal_strlit("Can't simulate, Simulator halted\n\n");
        reveal_strlit("Simulating...\n\n");
        reveal_strlit("Simulating for ");
        reveal_strlit(" cycles...\n\n");
        reveal_strlit("Bye.\n");
    }
    match reply {
        Reply::Refused => push_text(out, "Can't simulate, Simulator halted\n\n"),
        Reply::Went => {
            push_text(out, "Simulating...\n\n");
            push_halt(out, comp.halt_cause());
        },
        Reply::Ran(cycles) => {
            push_text(out, "Simulating for ");
            push_decimal(out, cycles as u64);
            push_text(out, " cycles...\n\n");
            push_halt(out, comp.halt_cause());
        },
        Reply::Memory(start, stop) => comp.mdump_intern(start, stop, out),
        Reply::Registers => comp.rdump_intern(out),
        Reply::Done => {},
        Reply::Help => help(out),
        Reply::Quit => push_text(out, "Bye.\n"),
    }
    assert(out@ =~= old(out)@ + reply_text(comp@, reply));
}

/// Appends what is shown for a line that is no command.
pub fn push_error(out: &mut Vec<u8>, error: CommandError)
    ensures
        final(out)@ == old(out)@ + error_text(error),
{
    proof {
        reveal_strlit("Invalid Command\n");
        reveal_strlit("Error: ");
        reveal_strlit(" requires ");
        reveal_strlit(" param\n");
        reveal_strlit(" params\n");
        reveal_strlit(" takes decimal numbers\n");
    }
    match error {
        CommandError::InvalidCommand => push_text(out, "Invalid Command\n"),
        CommandError::MissingParam(verb) => {
            push_text(out, "Error: ");
            push_name(out, verb);
            push_text(out, " requires ");
            push_decimal(out, verb.params() as u64);
            if verb.params() == 1 {
                push_text(out, " param\n");
            } else {
                push_text(out, " params\n");
            }
        },
        CommandError::BadNumber(verb) => {
            push_text(out, "Error: ");
            push_name(out, verb);
            push_text(out, " takes decimal numbers\n");
        },
    }
    assert(out@ =~= old(out)@ + error_text(error));
}

/// Appends the help.
pub fn help(out: &mut Vec<u8>)
    ensures
        final(out)@ == old(out)@ + help_text(),
{
    proof {
        reveal_strlit("----------------MIPS ISIM Help------------------------\n");
        reveal_strlit("go                    - run program to completion     \n");
        reveal_strlit("run n                 - execute program for n instrs  \n");
        reveal_strlit("mdump low high        - dump memory from low to high  \n");
        reveal_strlit("rdump                 - dump the register & bus value \n");
        reveal_strlit("input reg_num reg_val - set GPR reg_num to reg_val    \n");
        reveal_strlit("high value            - set the HI register to value  \n");
        reveal_strlit("low value             - set the LO register to value  \n");
        reveal_strlit("?                     - display this help menu        \n");
        reveal_strlit("quit                  - exit the program              \n\n");
    }
    push_text(out, "----------------MIPS ISIM Help------------------------\n");
    push_text(out, "go                    - run program to completion     \n");
    push_text(out, "run n                 - execute program for n instrs  \n");
    push_text(out, "mdump low high        - dump memory from low to high  \n");
    push_text(out, "rdump                 - dump the register & bus value \n");
    push_text(out, "input reg_num reg_val - set GPR reg_num to reg_val    \n");
    push_text(out, "high value            - set the HI register to value  \n");
    push_text(out, "low value             - set the LO register to value  \n");
    push_text(out, "?                     - display this help menu        \n");
    push_text(out, "quit                  - exit the program              \n\n");
    assert(out@ =~= old(out)@ + help_text());
}

/// Reads a line as a command, carries it out and appends what is to be
/// shown. A line that is no command changes nothing in the machine.
pub fn prompt(comp: &mut MipsComputer, line: &[u8], out: &mut Vec<u8>) -> (r: Result<
    Reply,
    CommandError,
>)
    ensures
        match parse(line@) {
            Ok(command) => {
                &&& r == Ok::<Reply, CommandError>(command_reply(old(comp)@, command))
                &&& final(comp)@ == command_effect(old(comp)@, command)
                &&& final(out)@ == old(out)@ + reply_text(
                    final(comp)@,
                    command_reply(old(comp)@, command),
                )
            },
            Err(error) => {
                &&& r == Err::<Reply, CommandError>(error)
                &&& final(comp)@ == old(comp)@
                &&& final(out)@ == old(out)@ + error_text(error)
            },
        },
{
    match parse_command(line) {
        Ok(command) => {
            let reply: Reply = execute(comp, command);
            push_reply(out, comp, reply);
            Ok(reply)
        },
        Err(error) => {
            push_error(out, error);
            Err(error)
        },
    }
}

} // verus!
