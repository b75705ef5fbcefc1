use chip8::cartridge::{Cartridge, LoadError};
use chip8::cpu::CPU;
use chip8::interpreter::{AsmError, Interpreter};
use chip8::ram::{RAM, RAM_OFFSET};
use chip8::text::{parse_hex, words_of};

fn assemble(lines: &[&str]) -> Result<RAM, AsmError> {
    let mut ram = RAM::new();
    let mut interpreter = Interpreter::new();
    for line in lines {
        interpreter.interpret_line(&mut ram, line)?;
    }
    interpreter.resolve_references(&mut ram)?;
    Ok(ram)
}

fn failure(lines: &[&str]) -> AsmError {
    match assemble(lines) {
        Ok(_) => panic!("the program assembled"),
        Err(e) => e,
    }
}

fn run(ram: &mut RAM) -> CPU {
    let mut cpu = CPU::new();
    while cpu.tick(ram, None, None).unwrap() {}
    cpu
}

#[test]
fn forward_reference_runs_like_hand_encoded() {
    let mut ram = assemble(&["STV 0 5", "STV 1 7", "addtwo", "EXT", "#f addtwo", "ADD 0 1", "RET"]).unwrap();
    assert_eq!(ram.get_u16(RAM_OFFSET + 4), 0x2008);
    assert_eq!(ram.get_u16(RAM_OFFSET + 8), 0x8014);
    assert_eq!(ram.get_u16(RAM_OFFSET + 10), 0x00EE);
    let cpu = run(&mut ram);

    let mut hand = RAM::new();
    for (k, w) in [0x6005u16, 0x6107, 0x2008, 0x0000, 0x8014, 0x00EE].iter().enumerate() {
        hand.set_u16(RAM_OFFSET + 2 * k, *w);
    }
    let expected = run(&mut hand);
    assert_eq!(cpu.read_register(0), 12);
    for r in 0..16 {
        assert_eq!(cpu.read_register(r), expected.read_register(r));
    }
    assert_eq!(cpu.program_counter, expected.program_counter);
}

#[test]
fn reference_inside_a_definition_is_patched() {
    let mut ram = assemble(&[
        "outer",
        "EXT",
        "#f outer",
        "ADDV 0 1",
        "inner",
        "RET",
        "#f inner",
        "ADDV 0 10",
        "RET",
    ])
    .unwrap();
    // image: call(4), halt; outer at 4: 7001, call(inner), 00EE; inner at 10
    assert_eq!(ram.get_u16(RAM_OFFSET), 0x2004);
    assert_eq!(ram.get_u16(RAM_OFFSET + 6), 0x200A);
    let cpu = run(&mut ram);
    assert_eq!(cpu.read_register(0), 0x11);
}

#[test]
fn every_shape_encodes() {
    let ram = assemble(&[
        "CLD", "JMP 123", "SEV 1 22", "SER 1 2", "SUBR 3 4", "RSH 5", "LSH 6", "DRW 1 2 F", "SENP 7", "CFR F",
    ])
    .unwrap();
    let words: Vec<u16> = (0..10).map(|k| ram.get_u16(RAM_OFFSET + 2 * k)).collect();
    assert_eq!(words, vec![0x000E, 0x1123, 0x3122, 0x5120, 0x8347, 0x8506, 0x860E, 0xD12F, 0xE7AE, 0xFF65]);
}

#[test]
fn blank_and_indented_lines() {
    let mut ram = RAM::new();
    let mut interpreter = Interpreter::new();
    assert_eq!(interpreter.interpret_line(&mut ram, ""), Ok(true));
    assert_eq!(interpreter.interpret_line(&mut ram, "   "), Ok(true));
    assert_eq!(interpreter.interpret_line(&mut ram, "  STV  3\tff "), Ok(true));
    assert_eq!(interpreter.offset, 2);
    assert_eq!(ram.get_u16(RAM_OFFSET), 0x63FF);
}

#[test]
fn missing_operand_error() {
    let e = failure(&["ADD 0"]);
    assert_eq!(e, AsmError::InvalidIndex(2));
    assert_eq!(e.message(), "Invalid index '2'");
}

#[test]
fn non_hex_operand_error() {
    assert_eq!(failure(&["ADD 0 X"]), AsmError::InvalidNumber("X".to_string()));
}

#[test]
fn operand_too_wide_error() {
    assert_eq!(failure(&["ADD 10 0"]), AsmError::OperandOutOfRange("10".to_string()));
    assert_eq!(failure(&["JMP 1000"]), AsmError::OperandOutOfRange("1000".to_string()));
}

#[test]
fn nested_definition_error() {
    assert_eq!(failure(&["#f a", "#f b"]), AsmError::NestedDefinition);
}

#[test]
fn missing_name_error() {
    assert_eq!(failure(&["#f"]), AsmError::MissingName);
}

#[test]
fn redeclared_name_error() {
    let e = failure(&["#f a", "RET", "#f a"]);
    assert_eq!(e.message(), "Redeclared function name a");
}

#[test]
fn unknown_directive_error() {
    assert_eq!(failure(&["#x"]), AsmError::UnknownDirective("#x".to_string()));
}

#[test]
fn undefined_reference_error() {
    assert_eq!(failure(&["STV 0 1", "nowhere", "EXT"]), AsmError::Undefined("nowhere".to_string()));
}

#[test]
fn full_program_image_error() {
    let mut ram = RAM::new();
    let mut interpreter = Interpreter::new();
    for _ in 0..0x700 {
        assert_eq!(interpreter.interpret_line(&mut ram, "STV 0 1"), Ok(true));
    }
    assert_eq!(interpreter.interpret_line(&mut ram, "STV 0 1"), Err(AsmError::ProgramTooLarge));
}

#[test]
fn bodies_past_the_end_error() {
    let mut ram = RAM::new();
    let mut interpreter = Interpreter::new();
    for _ in 0..0x6FF {
        interpreter.interpret_line(&mut ram, "STV 0 1").unwrap();
    }
    interpreter.interpret_line(&mut ram, "#f f").unwrap();
    interpreter.interpret_line(&mut ram, "ADD 0 1").unwrap();
    interpreter.interpret_line(&mut ram, "RET").unwrap();
    assert_eq!(interpreter.resolve_references(&mut ram), Err(AsmError::ProgramTooLarge));
}

#[test]
fn tokens_and_hex() {
    assert_eq!(words_of("  ADD  1\t2 "), vec!["ADD", "1", "2"]);
    assert_eq!(words_of(""), Vec::<&str>::new());
    assert_eq!(parse_hex("ff"), Some(255));
    assert_eq!(parse_hex("FFFF"), Some(0xFFFF));
    assert_eq!(parse_hex("10000"), None);
    assert_eq!(parse_hex(""), None);
    assert_eq!(parse_hex("1g"), None);
}

#[test]
fn cartridge_reports_failing_line() {
    let mut ram = RAM::new();
    let lines = vec!["STV 0 1".to_string(), "// note".to_string(), "ADD 0".to_string()];
    assert_eq!(
        Cartridge::load(&mut ram, &lines),
        Err(LoadError { line: Some(3), error: AsmError::InvalidIndex(2) })
    );
    let lines = vec!["missing".to_string()];
    assert_eq!(
        Cartridge::load(&mut RAM::new(), &lines),
        Err(LoadError { line: None, error: AsmError::Undefined("missing".to_string()) })
    );
    let lines = vec!["call".to_string(), "EXT".to_string(), "#f call".to_string(), "RET".to_string()];
    let mut ram = RAM::new();
    assert_eq!(Cartridge::load(&mut ram, &lines), Ok(()));
    assert_eq!(ram.get_u16(RAM_OFFSET), 0x2004);
}

#[test]
fn failing_line_changes_nothing() {
    let mut ram = RAM::new();
    let mut interpreter = Interpreter::new();
    interpreter.interpret_line(&mut ram, "STV 0 1").unwrap();
    assert_eq!(interpreter.interpret_line(&mut ram, "ADD 0"), Err(AsmError::InvalidIndex(2)));
    assert_eq!(interpreter.interpret_line(&mut ram, "STV 0 G"), Err(AsmError::InvalidNumber("G".to_string())));
    assert_eq!(interpreter.offset, 2);
    assert_eq!(ram.get_u16(RAM_OFFSET + 2), 0);
    interpreter.interpret_line(&mut ram, "#f body").unwrap();
    assert_eq!(interpreter.interpret_line(&mut ram, "#f other"), Err(AsmError::NestedDefinition));
    assert!(interpreter.in_function);
    assert_eq!(interpreter.definitions.len(), 1);
    assert_eq!(interpreter.interpret_line(&mut ram, "SUB 1"), Err(AsmError::InvalidIndex(2)));
    assert_eq!(interpreter.definitions[0].body.len(), 0);
}

#[test]
fn forward_reference_emits_placeholder() {
    let mut ram = RAM::new();
    let mut interpreter = Interpreter::new();
    interpreter.interpret_line(&mut ram, "STV 0 1").unwrap();
    assert_eq!(interpreter.interpret_line(&mut ram, "later"), Ok(true));
    assert_eq!(ram.get_u16(RAM_OFFSET + 2), 0xFFFF);
    assert_eq!(interpreter.offset, 4);
    assert_eq!(interpreter.references.len(), 1);
    assert_eq!(interpreter.references[0].name, "later");
    assert_eq!(interpreter.references[0].owner, None);
    assert_eq!(interpreter.references[0].position, 2);
}

#[test]
fn cartridge_stops_at_failing_line() {
    let mut ram = RAM::new();
    // the later lines are never read: neither the instruction nor the undefined reference
    let lines2 = vec!["STV 0 1".to_string(), "ADD 0 Z".to_string(), "STV 1 2".to_string(), "x".to_string()];
    assert_eq!(
        Cartridge::load(&mut ram, &lines2),
        Err(LoadError { line: Some(2), error: AsmError::InvalidNumber("Z".to_string()) })
    );
    assert_eq!(ram.get_u16(RAM_OFFSET), 0x6001);
    assert_eq!(ram.get_u16(RAM_OFFSET + 2), 0);
}

#[test]
fn error_messages() {
    assert_eq!(AsmError::InvalidIndex(12).message(), "Invalid index '12'");
    assert_eq!(AsmError::Undefined("f".to_string()).message(), "Undefined function f");
    assert_eq!(chip8::cpu::CpuError::InvalidInstruction(0xF0A1).message(), "Invalid instruction F0A1");
    assert_eq!(chip8::cpu::CpuError::InvalidKey(200).message(), "Invalid key supplied; 200");
}
