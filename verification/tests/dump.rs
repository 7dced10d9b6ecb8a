use mips_sim::dump::{
    push_decimal, push_hex, push_memory, push_memory_line, push_register_line, push_registers,
    MemoryLine, RegisterDump,
};
use mips_sim::shell::{help, parse_command, Command};
use mips_sim::sim::MipsComputer;

fn hex(value: u32) -> String {
    let mut out = Vec::new();
    push_hex(&mut out, value);
    String::from_utf8(out).unwrap()
}

fn dec(value: u64) -> String {
    let mut out = Vec::new();
    push_decimal(&mut out, value);
    String::from_utf8(out).unwrap()
}

#[test]
fn words_show_as_ten_characters_of_upper_case_hex() {
    assert_eq!(hex(0), "0x00000000");
    assert_eq!(hex(0x24080005), "0x24080005");
    assert_eq!(hex(0xDEADBEEF), "0xDEADBEEF");
    assert_eq!(hex(0xFFFFFFFF), "0xFFFFFFFF");
    assert_eq!(hex(0x0000000A), "0x0000000A");
    assert_eq!(hex(0x9ABCDEF0), "0x9ABCDEF0");
    assert_eq!(hex(0x12345678), "0x12345678");
    for value in [0u32, 1, 15, 16, 255, 4096, 0x00400000, 0x7FFFFFFF, 0x80000000, u32::MAX] {
        assert_eq!(hex(value), format!("{:#010X}", value));
    }
}

#[test]
fn numbers_show_in_decimal_without_leading_zeros() {
    assert_eq!(dec(0), "0");
    assert_eq!(dec(7), "7");
    assert_eq!(dec(9), "9");
    assert_eq!(dec(10), "10");
    assert_eq!(dec(4194304), "4194304");
    assert_eq!(dec(4294967295), "4294967295");
    assert_eq!(dec(u64::MAX), "18446744073709551615");
    for value in [11u64, 99, 100, 101, 1000, 123456789, 1 << 32, u64::MAX - 1] {
        assert_eq!(dec(value), format!("{}", value));
    }
}

#[test]
fn renderers_append() {
    let mut out = b"PC: ".to_vec();
    push_hex(&mut out, 0x00400000);
    out.push(b' ');
    push_decimal(&mut out, 42);
    assert_eq!(String::from_utf8(out).unwrap(), "PC: 0x00400000 42");
}

#[test]
fn decimal_text_reads_back_as_the_number() {
    for value in [0u32, 1, 9, 10, 99, 4194304, u32::MAX] {
        let mut line = b"run ".to_vec();
        push_decimal(&mut line, value as u64);
        assert_eq!(parse_command(&line), Ok(Command::Run(value)));
    }
}

#[test]
fn memory_line_shows_address_twice_and_the_word() {
    let mut out = Vec::new();
    push_memory_line(&mut out, &MemoryLine { address: 0x00400000, value: Some(0x24080005) });
    assert_eq!(String::from_utf8(out).unwrap(), "    0x00400000  (4194304) : 0x24080005\n");
    let mut out = Vec::new();
    push_memory_line(&mut out, &MemoryLine { address: 0x00500000, value: None });
    assert_eq!(
        String::from_utf8(out).unwrap(),
        "    0x00500000  (5242880) : <undefined address>\n"
    );
    let mut out = Vec::new();
    push_memory_line(&mut out, &MemoryLine { address: 0, value: Some(0) });
    assert_eq!(String::from_utf8(out).unwrap(), "    0x00000000  (0) : 0x00000000\n");
}

#[test]
fn register_line_shows_number_and_value() {
    let mut out = Vec::new();
    push_register_line(&mut out, 0, 0);
    push_register_line(&mut out, 8, 0xDEADBEEF);
    push_register_line(&mut out, 31, 0x00400004);
    assert_eq!(
        String::from_utf8(out).unwrap(),
        "R0: 0x00000000\nR8: 0xDEADBEEF\nR31: 0x00400004\n"
    );
}

#[test]
fn memory_dump_text() {
    let lines = vec![
        MemoryLine { address: 0x004FFFFC, value: Some(0xAABBCCDD) },
        MemoryLine { address: 0x00500000, value: None },
    ];
    let mut out = Vec::new();
    push_memory(&mut out, 0x004FFFFC, 0x00500003, &lines);
    assert_eq!(
        String::from_utf8(out).unwrap(),
        "\nMemory content [0x004FFFFC..0x00500003] :\n\
         -----------------------------------------\n\
         \x20   0x004FFFFC  (5242876) : 0xAABBCCDD\n\
         \x20   0x00500000  (5242880) : <undefined address>\n\
         \n"
    );
}

#[test]
fn memory_dump_text_of_an_empty_range() {
    let mut out = Vec::new();
    push_memory(&mut out, 8, 4, &Vec::new());
    assert_eq!(
        String::from_utf8(out).unwrap(),
        "\nMemory content [0x00000008..0x00000004] :\n\
         -----------------------------------------\n\
         \n"
    );
}

#[test]
fn register_dump_text() {
    let mut regs = [0u32; 32];
    regs[8] = 0xDEADBEEF;
    regs[31] = 0x00400004;
    let dump = RegisterDump { instr_count: 12, pc: 0x00400008, regs, hi: 0x11, lo: 0xFFFFFFFF };
    let mut out = Vec::new();
    push_registers(&mut out, &dump);
    let mut expected = String::new();
    expected.push_str("\n Current register/bus values :\n");
    expected.push_str("-------------------------------\n");
    expected.push_str("Instruction count : 12\n");
    expected.push_str("PC                : 0x00400008\n");
    expected.push_str("Registers:\n");
    for (i, reg) in regs.iter().enumerate() {
        expected.push_str(&format!("R{}: {:#010X}\n", i, reg));
    }
    expected.push_str("HI: 0x00000011\n");
    expected.push_str("LO: 0xFFFFFFFF\n");
    expected.push_str("\n");
    assert_eq!(String::from_utf8(out).unwrap(), expected);
}

#[test]
fn machine_dumps_as_text() {
    let mut comp = MipsComputer::new(&[vec![0x24, 0x08, 0x00, 0x05]]);
    comp.step();
    let mut out = Vec::new();
    comp.mdump_intern(0x00400000, 0x00400004, &mut out);
    assert_eq!(
        String::from_utf8(out).unwrap(),
        "\nMemory content [0x00400000..0x00400004] :\n\
         -----------------------------------------\n\
         \x20   0x00400000  (4194304) : 0x24080005\n\
         \x20   0x00400004  (4194308) : 0x00000000\n\
         \n"
    );
    let mut out = Vec::new();
    comp.rdump_intern(&mut out);
    let text = String::from_utf8(out).unwrap();
    assert!(text.starts_with(
        "\n Current register/bus values :\n\
         -------------------------------\n\
         Instruction count : 1\n\
         PC                : 0x00400004\n\
         Registers:\n\
         R0: 0x00000000\n"
    ));
    assert!(text.contains("\nR8: 0x00000005\n"));
    assert!(text.ends_with("R31: 0x00000000\nHI: 0x00000000\nLO: 0x00000000\n\n"));
    assert_eq!(text.lines().count(), 1 + 5 + 32 + 2 + 1);
    let mut again = Vec::new();
    push_registers(&mut again, &comp.rdump());
    assert_eq!(String::from_utf8(again).unwrap(), text);
}

#[test]
fn help_names_every_command() {
    let mut out = Vec::new();
    help(&mut out);
    let text = String::from_utf8(out).unwrap();
    assert_eq!(
        text,
        "----------------MIPS ISIM Help------------------------\n\
         go                    - run program to completion     \n\
         run n                 - execute program for n instrs  \n\
         mdump low high        - dump memory from low to high  \n\
         rdump                 - dump the register & bus value \n\
         input reg_num reg_val - set GPR reg_num to reg_val    \n\
         high value            - set the HI register to value  \n\
         low value             - set the LO register to value  \n\
         ?                     - display this help menu        \n\
         quit                  - exit the program              \n\n"
    );
}
