use chip8::cpu::{CPU, SPECIAL_REGISTER};
use chip8::ram::{LETTER_SIZE, RAM, RAM_OFFSET};

/// Runs the machine until it halts; a fatal condition panics with its message.
fn run(cpu: &mut CPU, ram: &mut RAM) {
    loop {
        match cpu.tick(ram, None, None) {
            Ok(true) => {}
            Ok(false) => break,
            Err(e) => panic!("{}", e.message()),
        }
    }
}


#[test]
fn test_set_i() {
    let mut cpu = CPU::new();
    let mut ram = RAM::new();
    ram.set_u16(RAM_OFFSET, 0xA001);
    run(&mut cpu, &mut ram);
    assert_eq!(cpu.i, 0x1);
}

#[test]
fn test_set_i_to_char_loc() {
    let mut cpu = CPU::new();
    let mut ram = RAM::new();
    ram.set_u16(RAM_OFFSET, 0xF029);
    cpu.set_register(0, 0);
    run(&mut cpu, &mut ram);
    assert_eq!(cpu.i, 0x0);
}

#[test]
fn test_set_i_to_char_loc_c() {
    let mut cpu = CPU::new();
    let mut ram = RAM::new();
    ram.set_u16(RAM_OFFSET, 0xFC29);
    cpu.set_register(0xCusize, 0xCu8);
    run(&mut cpu, &mut ram);
    assert_eq!(cpu.i, (LETTER_SIZE * 0xCusize) as u16);
}

#[test]
fn test_register_to_bcd() {
    let mut cpu = CPU::new();
    let mut ram = RAM::new();
    ram.set_u16(RAM_OFFSET, 0xF033);
    cpu.set_register(0, 129);
    run(&mut cpu, &mut ram);
    assert_eq!(ram.get(cpu.i as usize), 1);
    assert_eq!(ram.get((cpu.i + 1) as usize), 2);
    assert_eq!(ram.get((cpu.i + 2) as usize), 9);
}

#[test]
fn test_add_register_to_i() {
    let mut cpu = CPU::new();
    let mut ram = RAM::new();
    ram.set_u16(RAM_OFFSET, 0xF01E);
    cpu.set_register(0, 5);
    cpu.i = 2;
    run(&mut cpu, &mut ram);
    assert_eq!(cpu.i, 0x7);
}

#[test]
fn test_random_and_value() {
    // just assert it runs
    let mut cpu = CPU::new();
    let mut ram = RAM::new();
    ram.set_u16(RAM_OFFSET, 0xC000);
    run(&mut cpu, &mut ram);
    assert_eq!(cpu.read_register(0), 0);
}

#[test]
fn test_rshift_x_sig_1() {
    let mut cpu = CPU::new();
    let mut ram = RAM::new();
    ram.set_u16(RAM_OFFSET, 0x8006);
    cpu.set_register(0, 0b101);
    run(&mut cpu, &mut ram);
    assert_eq!(cpu.read_register(SPECIAL_REGISTER), 0x1);
    assert_eq!(cpu.read_register(0), 0b10);
}

#[test]
fn test_rshift_x_sig_2() {
    let mut cpu = CPU::new();
    let mut ram = RAM::new();
    ram.set_u16(RAM_OFFSET, 0x8006);
    cpu.set_register(0, 0b110);
    run(&mut cpu, &mut ram);
    assert_eq!(cpu.read_register(SPECIAL_REGISTER), 0x0);
    assert_eq!(cpu.read_register(0), 0b11);
}

#[test]
fn test_lshift_x_sig_1() {
    let mut cpu = CPU::new();
    let mut ram = RAM::new();
    ram.set_u16(RAM_OFFSET, 0x800E);
    cpu.set_register(0, 0b10001010);
    run(&mut cpu, &mut ram);
    assert_eq!(cpu.read_register(SPECIAL_REGISTER), 0x1);
    assert_eq!(cpu.read_register(0), 0b10100);
}

#[test]
fn test_lshift_x_sig_2() {
    let mut cpu = CPU::new();
    let mut ram = RAM::new();
    ram.set_u16(RAM_OFFSET, 0x800E);
    cpu.set_register(0, 0b01001010);
    run(&mut cpu, &mut ram);
    assert_eq!(cpu.read_register(SPECIAL_REGISTER), 0x0);
    assert_eq!(cpu.read_register(0), 0b10010100);
}

#[test]
fn test_or_y_in_x() {
    let mut cpu = CPU::new();
    let mut ram = RAM::new();
    ram.set_u16(RAM_OFFSET, 0x8011);
    cpu.set_register(0, 0b001u8);
    cpu.set_register(1, 0b101u8);
    run(&mut cpu, &mut ram);
    assert_eq!(cpu.read_register(0), 0b101);
}

#[test]
fn test_and_y_in_x() {
    let mut cpu = CPU::new();
    let mut ram = RAM::new();
    ram.set_u16(RAM_OFFSET, 0x8012);
    cpu.set_register(0, 0b001u8);
    cpu.set_register(1, 0b101u8);
    run(&mut cpu, &mut ram);
    assert_eq!(cpu.read_register(0), 0b001);
}

#[test]
fn test_sub_y_from_x() {
    let mut cpu = CPU::new();
    let mut ram = RAM::new();
    ram.set_u16(RAM_OFFSET, 0x8015);
    cpu.set_register(0, 5);
    cpu.set_register(1, 3);
    run(&mut cpu, &mut ram);
    assert_eq!(cpu.read_register(0), 2);
    assert_eq!(cpu.read_register(SPECIAL_REGISTER), 1);
}

#[test]
fn test_sub_y_from_x_overflow() {
    let mut cpu = CPU::new();
    let mut ram = RAM::new();
    ram.set_u16(RAM_OFFSET, 0x8015);
    cpu.set_register(0, 5);
    cpu.set_register(1, 6);
    run(&mut cpu, &mut ram);
    assert_eq!(cpu.read_register(0), 255);
    assert_eq!(cpu.read_register(SPECIAL_REGISTER), 0);
}

#[test]
fn test_sub_x_from_y() {
    let mut cpu = CPU::new();
    let mut ram = RAM::new();
    ram.set_u16(RAM_OFFSET, 0x8017);
    cpu.set_register(0, 3);
    cpu.set_register(1, 5);
    run(&mut cpu, &mut ram);
    assert_eq!(cpu.read_register(0), 2);
    assert_eq!(cpu.read_register(SPECIAL_REGISTER), 1);
}

#[test]
fn test_sub_x_from_y_overflow() {
    let mut cpu = CPU::new();
    let mut ram = RAM::new();
    ram.set_u16(RAM_OFFSET, 0x8017);
    cpu.set_register(0, 6);
    cpu.set_register(1, 5);
    run(&mut cpu, &mut ram);
    assert_eq!(cpu.read_register(0), 255);
    assert_eq!(cpu.read_register(SPECIAL_REGISTER), 0);
}

#[test]
fn test_xor_y_in_x() {
    let mut cpu = CPU::new();
    let mut ram = RAM::new();
    ram.set_u16(RAM_OFFSET, 0x8013);
    cpu.set_register(0, 0b011u8);
    cpu.set_register(1, 0b101u8);
    run(&mut cpu, &mut ram);
    assert_eq!(cpu.read_register(0), 0b110);
}

#[test]
fn test_put_register_y_in_register_x() {
    let mut cpu = CPU::new();
    let mut ram = RAM::new();
    cpu.set_register(0, 0);
    cpu.set_register(1, 5);
    ram.set_u16(RAM_OFFSET, 0x8010);
    run(&mut cpu, &mut ram);
    assert_eq!(cpu.read_register(0), 5);
    assert_eq!(cpu.read_register(1), 5);
}

#[test]
fn test_add_value() {
    let mut cpu = CPU::new();
    let mut ram = RAM::new();
    cpu.set_register(0, 1);
    ram.set_u16(RAM_OFFSET, 0x7001);
    run(&mut cpu, &mut ram);
    assert_eq!(cpu.read_register(0), 2);
}

#[test]
fn test_set_register() {
    let mut cpu = CPU::new();
    let mut ram = RAM::new();
    ram.set_u16(RAM_OFFSET, 0x6009);
    run(&mut cpu, &mut ram);
    assert_eq!(cpu.read_register(0), 9);
}

#[test]
fn test_jump() {
    let mut cpu = CPU::new();
    let mut ram = RAM::new();
    cpu.set_register(0, 1);
    cpu.set_register(1, 2);
    ram.set_u16(RAM_OFFSET, 0x1004);
    ram.set_u16(RAM_OFFSET + 2, 0x8014);
    run(&mut cpu, &mut ram);        // goes up by 2 from the last terminating instruction
    assert_eq!(cpu.program_counter, 6);
    // make sure that add was not run
    assert_eq!(cpu.read_register(0), 1);
}

#[test]
fn test_jump_plus_v0() {
    let mut cpu = CPU::new();
    let mut ram = RAM::new();
    cpu.set_register(0, 2);
    cpu.set_register(1, 5);
    ram.set_u16(RAM_OFFSET, 0xB002);
    ram.set_u16(RAM_OFFSET + 2, 0x8014);
    run(&mut cpu, &mut ram);        // goes up by 2 from the last terminating instruction
    assert_eq!(cpu.program_counter, 6);
    // make sure that add was not run
    assert_eq!(cpu.read_register(0), 2);
}

#[test]
fn test_skip_if_equal_value1() {
    // check skip if equal
    let mut cpu = CPU::new();
    let mut ram = RAM::new();
    cpu.set_register(0, 1);
    cpu.set_register(1, 2);
    ram.set_u16(RAM_OFFSET, 0x3102);
    ram.set_u16(RAM_OFFSET + 2, 0x8014);
    run(&mut cpu, &mut ram);
    assert_eq!(cpu.read_register(0), 1);
}

#[test]
fn test_skip_if_equal_value2() {
    // check not skip[ if not equal
    let mut cpu = CPU::new();
    let mut ram = RAM::new();
    cpu.set_register(0, 1);
    cpu.set_register(1, 2);
    ram.set_u16(RAM_OFFSET, 0x3103);
    ram.set_u16(RAM_OFFSET + 2, 0x8014);
    run(&mut cpu, &mut ram);
    assert_eq!(cpu.read_register(0), 3);
}

#[test]
fn test_skip_if_not_equal_value1() {
    // check skip if equal
    let mut cpu = CPU::new();
    let mut ram = RAM::new();
    cpu.set_register(0, 1);
    cpu.set_register(1, 6);
    ram.set_u16(RAM_OFFSET, 0x4102);
    ram.set_u16(RAM_OFFSET + 2, 0x8014);
    run(&mut cpu, &mut ram);
    assert_eq!(cpu.read_register(0), 1);
}

#[test]
fn test_skip_if_not_equal_value2() {
    // check not skip[ if not equal
    let mut cpu = CPU::new();
    let mut ram = RAM::new();
    cpu.set_register(0, 2);
    cpu.set_register(1, 3);
    ram.set_u16(RAM_OFFSET, 0x4002);
    ram.set_u16(RAM_OFFSET + 2, 0x8014);
    run(&mut cpu, &mut ram);
    assert_eq!(cpu.read_register(0), 5);
}

#[test]
fn test_skip_if_equal_registers1() {
    // check skip if equal
    let mut cpu = CPU::new();
    let mut ram = RAM::new();
    cpu.set_register(0, 1);
    cpu.set_register(1, 1);
    ram.set_u16(RAM_OFFSET, 0x5010);
    ram.set_u16(RAM_OFFSET + 2, 0x8014);
    run(&mut cpu, &mut ram);
    assert_eq!(cpu.read_register(0), 1);
}

#[test]
fn test_skip_if_equal_registers2() {
    // check not skip[ if not equal
    let mut cpu = CPU::new();
    let mut ram = RAM::new();
    cpu.set_register(0, 1);
    cpu.set_register(1, 3);
    ram.set_u16(RAM_OFFSET, 0x5010);
    ram.set_u16(RAM_OFFSET + 2, 0x8014);
    run(&mut cpu, &mut ram);
    assert_eq!(cpu.read_register(0), 4);
}

#[test]
fn test_skip_if_not_equal_registers1() {
    // check skip if equal
    let mut cpu = CPU::new();
    let mut ram = RAM::new();
    cpu.set_register(0, 1);
    cpu.set_register(1, 2);
    ram.set_u16(RAM_OFFSET, 0x9010);
    ram.set_u16(RAM_OFFSET + 2, 0x8014);
    run(&mut cpu, &mut ram);
    assert_eq!(cpu.read_register(0), 1);
}

#[test]
fn test_skip_if_not_equal_registers2() {
    // check not skip[ if not equal
    let mut cpu = CPU::new();
    let mut ram = RAM::new();
    cpu.set_register(0, 1);
    cpu.set_register(1, 1);
    ram.set_u16(RAM_OFFSET, 0x9010);
    ram.set_u16(RAM_OFFSET + 2, 0x8014);
    run(&mut cpu, &mut ram);
    assert_eq!(cpu.read_register(0), 2);
}

#[test]
fn test_call() {
    // test both call and ret
    let mut cpu = CPU::new();
    let mut ram = RAM::new();
    cpu.set_register(0, 1);
    cpu.set_register(1, 2);
    let add_call: [u8; 4] = [
        0x80, 0x14,
        0x00, 0xEE
    ];
    ram.set_u16(RAM_OFFSET, 0x2100);
    ram.sets(RAM_OFFSET + 0x100, &add_call);

    run(&mut cpu, &mut ram);
    assert_eq!(cpu.read_register(0), 3);
    assert_eq!(cpu.i, 0x0);
}

#[test]
#[should_panic(expected = "Stack overflow, max call stack is 16!")]
fn test_stack_overflow() {
    // test both call and ret
    let mut cpu = CPU::new();
    let mut ram = RAM::new();
    cpu.set_register(0, 1);
    cpu.set_register(1, 2);
    let add_call: [u8; 6] = [
        0x80, 0x14,
        0x21, 0x00,
        0x00, 0xEE
    ];
    ram.set_u16(RAM_OFFSET, 0x2100);
    ram.sets(RAM_OFFSET + 0x100, &add_call);

    run(&mut cpu, &mut ram);
}

#[test]
fn test_add_registers() {
    let mut cpu = CPU::new();
    let mut ram = RAM::new();
    cpu.set_register(0, 1);
    cpu.set_register(1, 2);
    ram.set_u16(RAM_OFFSET, 0x8014);
    run(&mut cpu, &mut ram);
    assert_eq!(cpu.read_register(0), 3);
    assert_eq!(cpu.read_register(SPECIAL_REGISTER), 0);
}

#[test]
fn test_add_overflow() {
    // integer simply overflows
    let mut cpu = CPU::new();
    let mut ram = RAM::new();
    cpu.set_register(0, 1);
    cpu.set_register(1, 255);
    ram.set_u16(RAM_OFFSET, 0x8014);
    run(&mut cpu, &mut ram);
    assert_eq!(cpu.read_register(0), 0);
    assert_eq!(cpu.read_register(SPECIAL_REGISTER), 1);
}

#[test]
fn test_copy_to_memory() {
    // integer simply overflows
    let mut cpu = CPU::new();
    let mut ram = RAM::new();
    cpu.set_register(0, 1);
    cpu.set_register(1, 255);
    cpu.set_register(2, 2);
    cpu.set_register(3, 100);

    ram.set_u16(RAM_OFFSET, 0xA010);
    ram.set_u16(RAM_OFFSET + 2, 0xF455);
    run(&mut cpu, &mut ram);
    assert_eq!(ram.get(0x10), 1);
    assert_eq!(ram.get(0x11), 255);
    assert_eq!(ram.get(0x12), 2);
    assert_eq!(ram.get(0x13), 100);
}

#[test]
fn test_copy_from_memory() {
    // integer simply overflows
    let mut cpu = CPU::new();
    let mut ram = RAM::new();

    ram.set_u16(RAM_OFFSET, 0xA210);
    ram.set_u16(RAM_OFFSET + 2, 0xF265);
    ram.set(RAM_OFFSET + 0x10, 1);
    ram.set(RAM_OFFSET + 0x11, 52);
    run(&mut cpu, &mut ram);
    assert_eq!(cpu.read_register(0), 1);
    assert_eq!(cpu.read_register(1), 52);
}
