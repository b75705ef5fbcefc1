use chip8::cpu::{CpuError, CPU, SPECIAL_REGISTER};
use chip8::display::Display;
use chip8::instruction::{decode, Instruction};
use chip8::ram::{RAM, RAM_OFFSET};

fn run_with(cpu: &mut CPU, ram: &mut RAM, keypad: Option<&[bool; 16]>, mut display: Option<&mut Display>) -> Result<(), CpuError> {
    loop {
        let display = display.as_deref_mut();
        if !cpu.tick(ram, keypad, display)? {
            return Ok(());
        }
    }
}

fn load(ram: &mut RAM, words: &[u16]) {
    for (k, w) in words.iter().enumerate() {
        ram.set_u16(RAM_OFFSET + 2 * k, *w);
    }
}

#[test]
fn carry_examples() {
    let mut cpu = CPU::new();
    let mut ram = RAM::new();
    load(&mut ram, &[0x6001, 0x61FF, 0x8014]);
    run_with(&mut cpu, &mut ram, None, None).unwrap();
    assert_eq!((cpu.read_register(0), cpu.read_register(15)), (0, 1));
    let mut cpu = CPU::new();
    let mut ram = RAM::new();
    load(&mut ram, &[0x6001, 0x6102, 0x8014]);
    run_with(&mut cpu, &mut ram, None, None).unwrap();
    assert_eq!((cpu.read_register(0), cpu.read_register(15)), (3, 0));
}

#[test]
fn add_value_sets_carry_flag() {
    let mut cpu = CPU::new();
    let mut ram = RAM::new();
    load(&mut ram, &[0x60F0, 0x7020]);
    run_with(&mut cpu, &mut ram, None, None).unwrap();
    assert_eq!(cpu.read_register(0), 0x10);
    assert_eq!(cpu.read_register(SPECIAL_REGISTER), 1);
}

#[test]
fn flag_register_as_operand_is_overwritten() {
    let mut cpu = CPU::new();
    let mut ram = RAM::new();
    load(&mut ram, &[0x6F05, 0x6003, 0x8F05]);
    run_with(&mut cpu, &mut ram, None, None).unwrap();
    // 5 - 3 = 2 lands in register 15, then the no-borrow flag replaces it
    assert_eq!(cpu.read_register(15), 1);
}

#[test]
fn nested_calls_up_to_capacity_return() {
    let mut cpu = CPU::new();
    let mut ram = RAM::new();
    ram.set_u16(RAM_OFFSET, 0x2100);
    for k in 0..15 {
        ram.set_u16(RAM_OFFSET + 0x100 + 4 * k, 0x2100 + 4 * (k as u16 + 1));
        ram.set_u16(RAM_OFFSET + 0x100 + 4 * k + 2, 0x00EE);
    }
    ram.set_u16(RAM_OFFSET + 0x100 + 4 * 15, 0x00EE);
    run_with(&mut cpu, &mut ram, None, None).unwrap();
    assert_eq!(cpu.program_counter, 4);
    assert_eq!(cpu.stack_pointer, 0);
}

#[test]
fn block_transfer_round_trip() {
    for x in 0..16u16 {
        let mut cpu = CPU::new();
        let mut ram = RAM::new();
        for r in 0..16 {
            cpu.set_register(r, (r as u8) * 13 + 7);
        }
        let original: Vec<u8> = (0..16).map(|r| cpu.read_register(r)).collect();
        load(&mut ram, &[0xA300, 0xF055 | (x << 8), 0xF065 | (x << 8)]);
        run_with(&mut cpu, &mut ram, None, None).unwrap();
        let after: Vec<u8> = (0..16).map(|r| cpu.read_register(r)).collect();
        assert_eq!(after, original);
        for r in 0..=x as usize {
            assert_eq!(ram.get(0x300 + r), original[r]);
        }
    }
}

#[test]
fn glyph_address_for_every_digit() {
    for v in 0..16u8 {
        let mut cpu = CPU::new();
        let mut ram = RAM::new();
        cpu.set_register(3, v);
        load(&mut ram, &[0xF329]);
        run_with(&mut cpu, &mut ram, None, None).unwrap();
        assert_eq!(cpu.i, 5 * v as u16);
    }
}

#[test]
fn bcd_of_255_and_zero() {
    let mut cpu = CPU::new();
    let mut ram = RAM::new();
    cpu.set_register(2, 255);
    cpu.set_register(3, 0);
    load(&mut ram, &[0xA300, 0xF233, 0xA310, 0xF333]);
    run_with(&mut cpu, &mut ram, None, None).unwrap();
    assert_eq!((ram.get(0x300), ram.get(0x301), ram.get(0x302)), (2, 5, 5));
    assert_eq!((ram.get(0x310), ram.get(0x311), ram.get(0x312)), (0, 0, 0));
}

#[test]
fn random_byte_is_masked() {
    for _ in 0..50 {
        let mut cpu = CPU::new();
        let mut ram = RAM::new();
        load(&mut ram, &[0xC50F]);
        run_with(&mut cpu, &mut ram, None, None).unwrap();
        assert!(cpu.read_register(5) <= 0x0F);
    }
}

#[test]
fn random_and_value_masks_given_byte() {
    let mut cpu = CPU::new();
    cpu.random_and_value(4, 0x3C, 0xFF);
    assert_eq!(cpu.read_register(4), 0x3C);
}

#[test]
fn invalid_instruction_is_fatal() {
    let mut cpu = CPU::new();
    let mut ram = RAM::new();
    load(&mut ram, &[0xFFFF]);
    assert_eq!(cpu.tick(&mut ram, None, None), Err(CpuError::InvalidInstruction(0xFFFF)));
}

#[test]
fn return_on_empty_stack_is_fatal() {
    let mut cpu = CPU::new();
    let mut ram = RAM::new();
    load(&mut ram, &[0x00EE]);
    let e = cpu.tick(&mut ram, None, None).unwrap_err();
    assert_eq!(e, CpuError::StackUnderflow);
    assert_eq!(e.message(), "Stack underflow!");
}

#[test]
fn key_index_out_of_range_is_fatal() {
    let mut cpu = CPU::new();
    let mut ram = RAM::new();
    let keys = [false; 16];
    cpu.set_register(1, 20);
    load(&mut ram, &[0xE19E]);
    assert_eq!(cpu.tick(&mut ram, Some(&keys), None), Err(CpuError::InvalidKey(20)));
}

#[test]
fn key_instruction_without_keypad_is_fatal() {
    let mut cpu = CPU::new();
    let mut ram = RAM::new();
    load(&mut ram, &[0xE19E]);
    assert_eq!(cpu.tick(&mut ram, None, None), Err(CpuError::NoKeypad));
}

#[test]
fn display_instruction_without_display_is_fatal() {
    let mut cpu = CPU::new();
    let mut ram = RAM::new();
    load(&mut ram, &[0x000E]);
    assert_eq!(cpu.tick(&mut ram, None, None), Err(CpuError::NoDisplay));
}

#[test]
fn memory_past_the_end_is_fatal() {
    let mut cpu = CPU::new();
    let mut ram = RAM::new();
    load(&mut ram, &[0xAFFF, 0xF033]);
    assert_eq!(cpu.tick(&mut ram, None, None), Ok(true));
    assert_eq!(cpu.tick(&mut ram, None, None), Err(CpuError::AddressOutOfRange));
    let mut cpu = CPU::new();
    cpu.program_counter = 0xE00;
    assert_eq!(cpu.tick(&mut ram, None, None), Err(CpuError::AddressOutOfRange));
}

#[test]
fn skip_if_key_pressed_and_not_pressed() {
    let mut keys = [false; 16];
    keys[7] = true;
    let mut cpu = CPU::new();
    let mut ram = RAM::new();
    cpu.set_register(1, 7);
    cpu.set_register(2, 8);
    load(&mut ram, &[0xE19E, 0x6501, 0xE2AE, 0x6601]);
    run_with(&mut cpu, &mut ram, Some(&keys), None).unwrap();
    assert_eq!(cpu.read_register(5), 0);
    assert_eq!(cpu.read_register(6), 0);
}

#[test]
fn await_key_waits_then_captures() {
    let mut cpu = CPU::new();
    let mut ram = RAM::new();
    load(&mut ram, &[0xF40A]);
    let none = [false; 16];
    assert_eq!(cpu.tick(&mut ram, Some(&none), None), Ok(true));
    assert_eq!(cpu.program_counter, 0);
    let mut keys = [false; 16];
    keys[9] = true;
    keys[12] = true;
    assert_eq!(cpu.tick(&mut ram, Some(&keys), None), Ok(true));
    assert_eq!(cpu.program_counter, 2);
    assert_eq!(cpu.read_register(4), 9);
}

#[test]
fn timers_load_store_and_count_down() {
    let mut cpu = CPU::new();
    let mut ram = RAM::new();
    cpu.set_register(0, 3);
    load(&mut ram, &[0xF015, 0xF018]);
    run_with(&mut cpu, &mut ram, None, None).unwrap();
    assert_eq!((cpu.delay_timer, cpu.sound_timer), (3, 3));
    cpu.tick_timers();
    cpu.tick_timers();
    cpu.tick_timers();
    cpu.tick_timers();
    assert_eq!((cpu.delay_timer, cpu.sound_timer), (0, 0));
    cpu.delay_timer = 9;
    let mut ram = RAM::new();
    cpu.program_counter = 0;
    load(&mut ram, &[0xF607]);
    run_with(&mut cpu, &mut ram, None, None).unwrap();
    assert_eq!(cpu.read_register(6), 9);
}

#[test]
fn add_register_to_i_wraps() {
    let mut cpu = CPU::new();
    let mut ram = RAM::new();
    cpu.i = 0xFFFF;
    cpu.set_register(1, 2);
    load(&mut ram, &[0xF11E]);
    run_with(&mut cpu, &mut ram, None, None).unwrap();
    assert_eq!(cpu.i, 1);
}

#[test]
fn draw_glyph_and_detect_collision() {
    let mut cpu = CPU::new();
    let mut ram = RAM::new();
    let mut display = Display::new();
    cpu.set_register(0, 0);
    cpu.set_register(1, 62);
    cpu.set_register(2, 31);
    // glyph "0" at column 62, row 31: wraps to columns 0..=1 and rows 0..=3
    load(&mut ram, &[0xF029, 0xD125]);
    run_with(&mut cpu, &mut ram, None, Some(&mut display)).unwrap();
    assert_eq!(cpu.read_register(15), 0);
    assert!(display.pixel(62, 31) && display.pixel(63, 31) && display.pixel(0, 31) && display.pixel(1, 31));
    assert!(!display.pixel(2, 31));
    assert!(display.pixel(62, 0) && !display.pixel(63, 0) && !display.pixel(0, 0) && display.pixel(1, 0));
    cpu.program_counter = 2;
    run_with(&mut cpu, &mut ram, None, Some(&mut display)).unwrap();
    assert_eq!(cpu.read_register(15), 1);
    assert!(!display.pixel(62, 31) && !display.pixel(1, 0));
}

#[test]
fn clear_display_turns_pixels_off() {
    let mut display = Display::new();
    assert!(!display.draw(10, 5, 0x81));
    assert!(display.pixel(10, 5) && display.pixel(17, 5) && !display.pixel(11, 5));
    assert!(display.draw(10, 5, 0x01));
    assert!(!display.pixel(17, 5));
    let mut cpu = CPU::new();
    let mut ram = RAM::new();
    load(&mut ram, &[0x000E]);
    run_with(&mut cpu, &mut ram, None, Some(&mut display)).unwrap();
    assert!(!display.pixel(10, 5));
}

#[test]
fn decode_inverts_encode() {
    let samples = [
        Instruction::Halt,
        Instruction::Return,
        Instruction::Call(0x234),
        Instruction::AddValue(3, 0x7F),
        Instruction::Sub(1, 2),
        Instruction::ShiftLeft(9),
        Instruction::Draw(1, 2, 5),
        Instruction::SkipIfKeyNotPressed(4),
        Instruction::LoadRegisters(0xF),
    ];
    for ins in samples.iter() {
        assert_eq!(decode(ins.encode()), Some(*ins));
    }
    assert_eq!(Instruction::Draw(1, 2, 5).encode(), 0xD125);
    assert_eq!(decode(0x8008), None);
    assert_eq!(decode(0x5011), None);
}

#[test]
fn call_and_ret_directly() {
    let mut cpu = CPU::new();
    cpu.program_counter = 6;
    for _ in 0..16 {
        assert_eq!(cpu.call(0x300), Ok(true));
    }
    assert_eq!(cpu.stack_pointer, 16);
    assert_eq!(cpu.program_counter, 0x300);
    let before = (cpu.stack_pointer, cpu.program_counter, cpu.stack);
    assert_eq!(cpu.call(0x400), Err(CpuError::StackOverflow));
    assert_eq!((cpu.stack_pointer, cpu.program_counter, cpu.stack), before);
    assert_eq!(cpu.ret(), Ok(true));
    assert_eq!(cpu.program_counter, 0x300);
    let mut cpu = CPU::new();
    assert_eq!(cpu.ret(), Err(CpuError::StackUnderflow));
}

#[test]
fn block_copy_and_glyph_directly() {
    let mut cpu = CPU::new();
    let mut ram = RAM::new();
    cpu.i = 0x400;
    for r in 0..4 {
        cpu.set_register(r, 10 + r as u8);
    }
    assert_eq!(cpu.copy_x_to_ram(3, &mut ram), Ok(true));
    for r in 0..4 {
        cpu.set_register(r, 0);
    }
    assert_eq!(cpu.copy_ram_to_x(3, &ram), Ok(true));
    assert_eq!((cpu.read_register(0), cpu.read_register(3)), (10, 13));
    cpu.i = 0xFFE;
    assert_eq!(cpu.copy_x_to_ram(3, &mut ram), Err(CpuError::AddressOutOfRange));
    cpu.set_register(2, 0xC);
    cpu.set_i_to_char_loc(2);
    assert_eq!(cpu.i, 60);
}
