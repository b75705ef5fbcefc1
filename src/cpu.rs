use crate::display::{drawn_row, row_collides, Display};
use crate::instruction::{decode, decoded, lemma_decoded_encoding, Instruction};
use crate::text::{decimal, decimal_chars, hex_word, hex_word_chars};
use crate::ram::{write_range, word_at, RAM, RAM_OFFSET, RAM_SIZE};
use rand::Rng;
use vstd::prelude::*;

verus! {

/// Capacity of the call stack.
pub const STACK_SIZE: usize = 0x10;

/// The register that receives carry, borrow, shift and collision flags.
pub const SPECIAL_REGISTER: usize = 0xF;

/// Bytes of one glyph sprite; glyph `v` starts at `GLYPH_SIZE * v`.
pub const GLYPH_SIZE: u16 = 5;

/// A fatal condition met while executing a program.
#[derive(Clone, Copy, Debug, PartialEq, Eq)]
pub enum CpuError {
    /// The word at the program counter encodes no instruction.
    InvalidInstruction(u16),
    /// A call with every stack entry in use.
    StackOverflow,
    /// A return with an empty stack.
    StackUnderflow,
    /// A key index outside 0..=15.
    InvalidKey(u8),
    /// An access past the end of memory.
    AddressOutOfRange,
    /// A display instruction while no display is attached.
    NoDisplay,
    /// A key instruction while no key state is supplied.
    NoKeypad,
}

impl CpuError {
    /// A description of the error for people, naming the word or key at fault.
    pub fn message(&self) -> (r: String)
        ensures
            r@ == match *self {
                CpuError::InvalidInstruction(w) => "Invalid instruction "@ + hex_word_chars(w),
                CpuError::StackOverflow => "Stack overflow, max call stack is 16!"@,
                CpuError::StackUnderflow => "Stack underflow!"@,
                CpuError::InvalidKey(v) => "Invalid key supplied; "@ + decimal_chars(v as nat),
                CpuError::AddressOutOfRange => "Address out of range"@,
                CpuError::NoDisplay => "No display attached"@,
                CpuError::NoKeypad => "No key state supplied"@,
            },
    {
        match *self {
            CpuError::InvalidInstruction(w) => String::from_str("Invalid instruction ").concat(
                hex_word(w).as_str(),
            ),
            CpuError::StackOverflow => String::from_str("Stack overflow, max call stack is 16!"),
            CpuError::StackUnderflow => String::from_str("Stack underflow!"),
            CpuError::InvalidKey(v) => String::from_str("Invalid key supplied; ").concat(
                decimal(v as usize).as_str(),
            ),
            CpuError::AddressOutOfRange => String::from_str("Address out of range"),
            CpuError::NoDisplay => String::from_str("No display attached"),
            CpuError::NoKeypad => String::from_str("No key state supplied"),
        }
    }
}

/// The instruction word at the program counter lies within memory.
pub open spec fn can_fetch(s: CpuModel) -> bool {
    RAM_OFFSET + s.program_counter + 1 < RAM_SIZE
}

/// The instruction word at the program counter.
pub open spec fn fetched(s: CpuModel, mem: Seq<u8>) -> u16 {
    word_at(mem, RAM_OFFSET + s.program_counter)
}

/// The state with the program counter past the fetched word.
pub open spec fn advanced(s: CpuModel) -> CpuModel {
    CpuModel { program_counter: s.program_counter + 2, ..s }
}

/// Relies on rand's thread-local generator and `Rng::gen_range` over
/// `0..=255`: some byte, uniformly drawn; nothing is known of its value.
#[verifier::external_body]
fn random_byte() -> u8 {
    rand::thread_rng().gen_range(0..=255u8)
}

/// The processor's state as mathematical values.
pub struct CpuModel {
    pub registers: Seq<u8>,
    pub program_counter: int,
    pub stack: Seq<u16>,
    pub stack_pointer: int,
    pub i: int,
    pub delay_timer: u8,
    pub sound_timer: u8,
}

/// Register `x` set to the 8-bit sum of itself and `v`; register 15 then set
/// to 1 on carry, else 0.
pub open spec fn add_with_carry(regs: Seq<u8>, x: int, v: u8) -> Seq<u8> {
    let sum = regs[x] + v;
    regs.update(x, (sum % 256) as u8).update(15, if sum > 255 { 1u8 } else { 0u8 })
}

/// Register `x` set to `a - b` modulo 256; register 15 then set to 1 when no
/// borrow occurred (`a >= b`), else 0.
pub open spec fn sub_with_borrow(regs: Seq<u8>, x: int, a: u8, b: u8) -> Seq<u8> {
    regs.update(x, ((a - b + 256) % 256) as u8).update(15, if a >= b { 1u8 } else { 0u8 })
}

/// Bit 0 of register `x` into register 15, then register `x` shifted right.
pub open spec fn shift_right(regs: Seq<u8>, x: int) -> Seq<u8> {
    let flagged = regs.update(15, regs[x] % 2);
    flagged.update(x, flagged[x] / 2)
}

/// Bit 7 of register `x` into register 15, then register `x` shifted left.
pub open spec fn shift_left(regs: Seq<u8>, x: int) -> Seq<u8> {
    let flagged = regs.update(15, regs[x] / 128);
    flagged.update(x, ((flagged[x] * 2) % 256) as u8)
}

/// The decimal digits of `v` written at `a`, `a + 1` and `a + 2`.
pub open spec fn bcd_written(mem: Seq<u8>, a: int, v: u8) -> Seq<u8> {
    mem.update(a, v / 100).update(a + 1, (v % 100) / 10).update(a + 2, v % 10)
}

/// The index of the first key that is down.
pub open spec fn first_pressed(keys: Seq<bool>) -> int {
    choose|k: int| 0 <= k < 16 && keys[k] && forall|j: int| 0 <= j < k ==> !keys[j]
}

/// Some key is down.
pub open spec fn any_pressed(keys: Seq<bool>) -> bool {
    exists|k: int| 0 <= k < 16 && keys[k]
}

/// `pixels` with the sprite rows `rows` drawn from column `x` of row `y` down.
pub open spec fn drawn_sprite(pixels: Seq<bool>, x: int, y: int, rows: Seq<u8>) -> Seq<bool>
    decreases rows.len(),
{
    if rows.len() == 0 {
        pixels
    } else {
        drawn_row(drawn_sprite(pixels, x, y, rows.drop_last()), x, y + rows.len() - 1, rows.last(), 8)
    }
}

/// Drawing the rows `rows` turns some lit pixel off.
pub open spec fn sprite_collides(pixels: Seq<bool>, x: int, y: int, rows: Seq<u8>) -> bool
    decreases rows.len(),
{
    if rows.len() == 0 {
        false
    } else {
        sprite_collides(pixels, x, y, rows.drop_last()) || row_collides(
            drawn_sprite(pixels, x, y, rows.drop_last()),
            x,
            y + rows.len() - 1,
            rows.last(),
            8,
        )
    }
}

/// The rows of an `n`-row sprite at the address register.
pub open spec fn sprite_rows(s: CpuModel, mem: Seq<u8>, n: u8) -> Seq<u8> {
    mem.subrange(s.i, s.i + n)
}

/// What executing `ins` returns: `Ok(false)` for halt, `Ok(true)` to go on,
/// or the fatal condition that it meets.
pub open spec fn outcome(
    s: CpuModel,
    keys: Option<Seq<bool>>,
    has_display: bool,
    ins: Instruction,
) -> Result<bool, CpuError> {
    match ins {
        Instruction::Halt => Ok(false),
        Instruction::ClearDisplay => if has_display {
            Ok(true)
        } else {
            Err(CpuError::NoDisplay)
        },
        Instruction::Return => if s.stack_pointer == 0 {
            Err(CpuError::StackUnderflow)
        } else {
            Ok(true)
        },
        Instruction::Call(_) => if s.stack_pointer >= STACK_SIZE {
            Err(CpuError::StackOverflow)
        } else {
            Ok(true)
        },
        Instruction::Draw(_, _, n) => if !has_display {
            Err(CpuError::NoDisplay)
        } else if s.i + n > RAM_SIZE {
            Err(CpuError::AddressOutOfRange)
        } else {
            Ok(true)
        },
        Instruction::SkipIfKeyPressed(x) | Instruction::SkipIfKeyNotPressed(x) => match keys {
            None => Err(CpuError::NoKeypad),
            Some(_) => if s.registers[x as int] >= 16 {
                Err(CpuError::InvalidKey(s.registers[x as int]))
            } else {
                Ok(true)
            },
        },
        Instruction::AwaitKey(_) => if keys is None {
            Err(CpuError::NoKeypad)
        } else {
            Ok(true)
        },
        Instruction::StoreBcd(_) => if s.i + 3 > RAM_SIZE {
            Err(CpuError::AddressOutOfRange)
        } else {
            Ok(true)
        },
        Instruction::StoreRegisters(x) | Instruction::LoadRegisters(x) => if s.i + x + 1
            > RAM_SIZE {
            Err(CpuError::AddressOutOfRange)
        } else {
            Ok(true)
        },
        _ => Ok(true),
    }
}

/// The processor's state after executing `ins` without error, the program
/// counter already past it. `random` is the byte drawn for `Random`,
/// `pixels` the screen before a `Draw`.
pub open spec fn next_state(
    s: CpuModel,
    mem: Seq<u8>,
    keys: Option<Seq<bool>>,
    pixels: Seq<bool>,
    random: u8,
    ins: Instruction,
) -> CpuModel {
    let regs = s.registers;
    let skip = CpuModel { program_counter: s.program_counter + 2, ..s };
    match ins {
        Instruction::Return => CpuModel {
            stack_pointer: s.stack_pointer - 1,
            program_counter: s.stack[s.stack_pointer - 1] as int,
            ..s
        },
        Instruction::Jump(n) => CpuModel { program_counter: n as int, ..s },
        Instruction::Call(n) => CpuModel {
            stack: s.stack.update(s.stack_pointer, s.program_counter as u16),
            stack_pointer: s.stack_pointer + 1,
            program_counter: n as int,
            ..s
        },
        Instruction::SkipIfEqualValue(x, kk) => if regs[x as int] == kk {
            skip
        } else {
            s
        },
        Instruction::SkipIfNotEqualValue(x, kk) => if regs[x as int] != kk {
            skip
        } else {
            s
        },
        Instruction::SkipIfEqualRegisters(x, y) => if regs[x as int] == regs[y as int] {
            skip
        } else {
            s
        },
        Instruction::SkipIfNotEqualRegisters(x, y) => if regs[x as int] != regs[y as int] {
            skip
        } else {
            s
        },
        Instruction::LoadValue(x, kk) => CpuModel { registers: regs.update(x as int, kk), ..s },
        Instruction::AddValue(x, kk) => CpuModel {
            registers: add_with_carry(regs, x as int, kk),
            ..s
        },
        Instruction::LoadRegister(x, y) => CpuModel {
            registers: regs.update(x as int, regs[y as int]),
            ..s
        },
        Instruction::Or(x, y) => CpuModel {
            registers: regs.update(x as int, regs[x as int] | regs[y as int]),
            ..s
        },
        Instruction::And(x, y) => CpuModel {
            registers: regs.update(x as int, regs[x as int] & regs[y as int]),
            ..s
        },
        Instruction::Xor(x, y) => CpuModel {
            registers: regs.update(x as int, regs[x as int] ^ regs[y as int]),
            ..s
        },
        Instruction::AddRegisters(x, y) => CpuModel {
            registers: add_with_carry(regs, x as int, regs[y as int]),
            ..s
        },
        Instruction::Sub(x, y) => CpuModel {
            registers: sub_with_borrow(regs, x as int, regs[x as int], regs[y as int]),
            ..s
        },
        Instruction::SubReverse(x, y) => CpuModel {
            registers: sub_with_borrow(regs, x as int, regs[y as int], regs[x as int]),
            ..s
        },
        Instruction::ShiftRight(x) => CpuModel { registers: shift_right(regs, x as int), ..s },
        Instruction::ShiftLeft(x) => CpuModel { registers: shift_left(regs, x as int), ..s },
        Instruction::SetI(n) => CpuModel { i: n as int, ..s },
        Instruction::JumpPlusV0(n) => CpuModel { program_counter: n + regs[0], ..s },
        Instruction::Random(x, kk) => CpuModel { registers: regs.update(x as int, random & kk), ..s },
        Instruction::Draw(x, y, n) => CpuModel {
            registers: regs.update(
                15,
                if sprite_collides(
                    pixels,
                    regs[x as int] as int,
                    regs[y as int] as int,
                    sprite_rows(s, mem, n),
                ) {
                    1u8
                } else {
                    0u8
                },
            ),
            ..s
        },
        Instruction::SkipIfKeyPressed(x) => if keys.unwrap()[regs[x as int] as int] {
            skip
        } else {
            s
        },
        Instruction::SkipIfKeyNotPressed(x) => if !keys.unwrap()[regs[x as int] as int] {
            skip
        } else {
            s
        },
        Instruction::LoadDelay(x) => CpuModel { registers: regs.update(x as int, s.delay_timer), ..s },
        Instruction::AwaitKey(x) => if any_pressed(keys.unwrap()) {
            CpuModel { registers: regs.update(x as int, first_pressed(keys.unwrap()) as u8), ..s }
        } else {
            CpuModel { program_counter: s.program_counter - 2, ..s }
        },
        Instruction::SetDelay(x) => CpuModel { delay_timer: regs[x as int], ..s },
        Instruction::SetSound(x) => CpuModel { sound_timer: regs[x as int], ..s },
        Instruction::AddToI(x) => CpuModel { i: (s.i + regs[x as int]) % 0x10000, ..s },
        Instruction::LoadGlyph(x) => CpuModel { i: GLYPH_SIZE * regs[x as int], ..s },
        Instruction::LoadRegisters(x) => CpuModel {
            registers: write_range(regs, 0, mem.subrange(s.i, s.i + x + 1)),
            ..s
        },
        _ => s,
    }
}

/// Memory after executing `ins` without error.
pub open spec fn next_memory(s: CpuModel, mem: Seq<u8>, ins: Instruction) -> Seq<u8> {
    match ins {
        Instruction::StoreBcd(x) => bcd_written(mem, s.i, s.registers[x as int]),
        Instruction::StoreRegisters(x) => write_range(mem, s.i, s.registers.subrange(0, x + 1)),
        _ => mem,
    }
}

/// The screen after executing `ins` without error.
pub open spec fn next_pixels(s: CpuModel, mem: Seq<u8>, pixels: Seq<bool>, ins: Instruction) -> Seq<
    bool,
> {
    match ins {
        Instruction::ClearDisplay => Seq::new(pixels.len(), |i: int| false),
        Instruction::Draw(x, y, n) => drawn_sprite(
            pixels,
            s.registers[x as int] as int,
            s.registers[y as int] as int,
            sprite_rows(s, mem, n),
        ),
        _ => pixels,
    }
}

/// The key state handed to an instruction, as a sequence.
pub open spec fn key_state(keypad: Option<&[bool; 16]>) -> Option<Seq<bool>> {
    match keypad {
        Some(k) => Some(k@),
        None => None,
    }
}

/// The screen handed to an instruction, or no pixels.
pub open spec fn screen_of(display: Option<&mut Display>) -> Seq<bool> {
    match display {
        Some(d) => d@,
        None => Seq::empty(),
    }
}

/// The state of the processor: registers, program counter, call stack,
/// address register and timers.
pub struct CPU {
    /// General-purpose registers; register 15 doubles as the flag register.
    pub registers: [u8; 16],
    /// Offset of the next instruction from the start of the program image.
    pub program_counter: usize,
    /// Return addresses of the open calls.
    pub stack: [u16; STACK_SIZE],
    /// Number of stack entries in use.
    pub stack_pointer: usize,
    /// The address register.
    pub i: u16,
    /// Counts down at 60 Hz while positive.
    pub delay_timer: u8,
    /// Counts down at 60 Hz while positive.
    pub sound_timer: u8,
}

impl View for CPU {
    type V = CpuModel;

    open spec fn view(&self) -> CpuModel {
        CpuModel {
            registers: self.registers@,
            program_counter: self.program_counter as int,
            stack: self.stack@,
            stack_pointer: self.stack_pointer as int,
            i: self.i as int,
            delay_timer: self.delay_timer,
            sound_timer: self.sound_timer,
        }
    }
}

impl CPU {
    /// The stack pointer stays within the stack.
    pub open spec fn wf(&self) -> bool {
        self.stack_pointer <= STACK_SIZE
    }

    /// A processor with every register, the program counter, the stack and
    /// the timers at zero.
    pub fn new() -> (r: CPU)
        ensures
            r.wf(),
            r@.registers == Seq::new(16, |j: int| 0u8),
            r@.program_counter == 0,
            r@.stack_pointer == 0,
            r@.i == 0,
            r@.delay_timer == 0,
            r@.sound_timer == 0,
    {
        let r = CPU {
            program_counter: 0,
            registers: [0u8; 16],
            stack: [0u16; STACK_SIZE],
            stack_pointer: 0,
            i: 0,
            delay_timer: 0,
            sound_timer: 0,
        };
        assert(r@.registers =~= Seq::new(16, |j: int| 0u8));
        r
    }

    /// Sets register `nr`.
    pub fn set_register(&mut self, nr: usize, value: u8)
        requires
            nr < 16,
        ensures
            final(self)@ == (CpuModel {
                registers: old(self)@.registers.update(nr as int, value),
                ..old(self)@
            }),
            final(self).wf() == old(self).wf(),
    {
        self.registers[nr] = value;
    }

    /// Reads register `nr`.
    pub fn read_register(&self, nr: usize) -> (r: u8)
        requires
            nr < 16,
        ensures
            r == self@.registers[nr as int],
    {
        self.registers[nr]
    }

    /// Pops the return address into the program counter.
    pub fn ret(&mut self) -> (r: Result<bool, CpuError>)
        requires
            old(self).wf(),
        ensures
            final(self).wf(),
            r == outcome(old(self)@, None, false, Instruction::Return),
            r is Err ==> final(self)@ == old(self)@,
            r is Ok ==> final(self)@ == next_state(
                old(self)@,
                Seq::empty(),
                None,
                Seq::empty(),
                0,
                Instruction::Return,
            ),
    {
        if self.stack_pointer == 0 {
            return Err(CpuError::StackUnderflow);
        }
        self.stack_pointer -= 1;
        self.program_counter = self.stack[self.stack_pointer] as usize;
        Ok(true)
    }

    /// Jumps to `addr`.
    fn jump(&mut self, addr: u16)
        ensures
            final(self)@ == (CpuModel { program_counter: addr as int, ..old(self)@ }),
            final(self).wf() == old(self).wf(),
    {
        self.program_counter = addr as usize;
    }

    /// Pushes the program counter and jumps to `addr`.
    pub fn call(&mut self, addr: u16) -> (r: Result<bool, CpuError>)
        requires
            old(self).wf(),
            old(self).program_counter < 0x10000,
        ensures
            final(self).wf(),
            r == outcome(old(self)@, None, false, Instruction::Call(addr)),
            r is Err ==> final(self)@ == old(self)@,
            r is Ok ==> final(self)@ == next_state(
                old(self)@,
                Seq::empty(),
                None,
                Seq::empty(),
                0,
                Instruction::Call(addr),
            ),
    {
        if self.stack_pointer >= STACK_SIZE {
            return Err(CpuError::StackOverflow);
        }
        self.stack[self.stack_pointer] = self.program_counter as u16;
        self.stack_pointer += 1;
        self.program_counter = addr as usize;
        Ok(true)
    }

    /// Skips the next instruction when `cond` holds.
    fn skip_if(&mut self, cond: bool)
        requires
            old(self).program_counter + 2 <= usize::MAX,
        ensures
            final(self)@ == (if cond {
                CpuModel { program_counter: old(self)@.program_counter + 2, ..old(self)@ }
            } else {
                old(self)@
            }),
            final(self).wf() == old(self).wf(),
    {
        if cond {
            self.program_counter += 2;
        }
    }

    /// Adds `value` to `register`, with the carry into register 15.
    fn add_kk_to_x(&mut self, register: u8, value: u8)
        requires
            register < 16,
        ensures
            final(self)@ == (CpuModel {
                registers: add_with_carry(old(self)@.registers, register as int, value),
                ..old(self)@
            }),
            final(self).wf() == old(self).wf(),
    {
        let sum = self.registers[register as usize] as u16 + value as u16;
        self.registers[register as usize] = (sum % 256) as u8;
        if sum > 255 {
            self.registers[SPECIAL_REGISTER] = 1;
        } else {
            self.registers[SPECIAL_REGISTER] = 0;
        }
    }

    /// Adds `register2` to `register1`, with the carry into register 15.
    fn add_y_to_x(&mut self, register1: u8, register2: u8)
        requires
            register1 < 16,
            register2 < 16,
        ensures
            final(self)@ == (CpuModel {
                registers: add_with_carry(old(self)@.registers, register1 as int, old(self)@.registers[register2 as int]),
                ..old(self)@
            }),
            final(self).wf() == old(self).wf(),
    {
        let value = self.registers[register2 as usize];
        self.add_kk_to_x(register1, value);
    }

    /// Register `register1` becomes `a - b` modulo 256, register 15 the no-borrow flag.
    fn sub_into(&mut self, register1: u8, a: u8, b: u8)
        requires
            register1 < 16,
        ensures
            final(self)@ == (CpuModel {
                registers: sub_with_borrow(old(self)@.registers, register1 as int, a, b),
                ..old(self)@
            }),
            final(self).wf() == old(self).wf(),
    {
        self.registers[register1 as usize] = ((a as u16 + 256 - b as u16) % 256) as u8;
        if a >= b {
            self.registers[SPECIAL_REGISTER] = 1;
        } else {
            self.registers[SPECIAL_REGISTER] = 0;
        }
    }

    /// `register1 -= register2`, with the no-borrow flag into register 15.
    fn sub_y_from_x(&mut self, register1: u8, register2: u8)
        requires
            register1 < 16,
            register2 < 16,
        ensures
            final(self)@ == (CpuModel {
                registers: sub_with_borrow(old(self)@.registers, register1 as int,
                    old(self)@.registers[register1 as int], old(self)@.registers[register2 as int]),
                ..old(self)@
            }),
            final(self).wf() == old(self).wf(),
    {
        let a = self.registers[register1 as usize];
        let b = self.registers[register2 as usize];
        self.sub_into(register1, a, b);
    }

    /// `register1 = register2 - register1`, with the no-borrow flag into register 15.
    fn sub_x_from_y(&mut self, register1: u8, register2: u8)
        requires
            register1 < 16,
            register2 < 16,
        ensures
            final(self)@ == (CpuModel {
                registers: sub_with_borrow(old(self)@.registers, register1 as int,
                    old(self)@.registers[register2 as int], old(self)@.registers[register1 as int]),
                ..old(self)@
            }),
            final(self).wf() == old(self).wf(),
    {
        let a = self.registers[register2 as usize];
        let b = self.registers[register1 as usize];
        self.sub_into(register1, a, b);
    }

    /// Shifts `register1` right, bit 0 into register 15 first.
    fn rshift_x(&mut self, register1: u8)
        requires
            register1 < 16,
        ensures
            final(self)@ == (CpuModel {
                registers: shift_right(old(self)@.registers, register1 as int),
                ..old(self)@
            }),
            final(self).wf() == old(self).wf(),
    {
        self.registers[SPECIAL_REGISTER] = self.registers[register1 as usize] % 2;
        self.registers[register1 as usize] = self.registers[register1 as usize] / 2;
    }

    /// Shifts `register1` left, bit 7 into register 15 first.
    fn lshift_x(&mut self, register1: u8)
        requires
            register1 < 16,
        ensures
            final(self)@ == (CpuModel {
                registers: shift_left(old(self)@.registers, register1 as int),
                ..old(self)@
            }),
            final(self).wf() == old(self).wf(),
    {
        self.registers[SPECIAL_REGISTER] = self.registers[register1 as usize] / 128;
        self.registers[register1 as usize] = (self.registers[register1 as usize] as u16 * 2 % 256) as u8;
    }

    /// Loads `random & value` into `register`; `random` is the byte drawn for it.
    pub fn random_and_value(&mut self, register: u8, value: u8, random: u8)
        requires
            register < 16,
        ensures
            final(self)@ == (CpuModel {
                registers: old(self)@.registers.update(register as int, random & value),
                ..old(self)@
            }),
            final(self).wf() == old(self).wf(),
    {
        self.registers[register as usize] = random & value;
    }

    /// Points the address register at the glyph for the value of `register`.
    pub fn set_i_to_char_loc(&mut self, register: u8)
        requires
            register < 16,
        ensures
            final(self)@ == (CpuModel {
                i: GLYPH_SIZE * old(self)@.registers[register as int],
                ..old(self)@
            }),
            final(self).wf() == old(self).wf(),
    {
        self.i = GLYPH_SIZE * self.registers[register as usize] as u16;
    }

    /// Adds `register` to the address register, modulo 2^16.
    fn add_register_to_i(&mut self, register: u8)
        requires
            register < 16,
        ensures
            final(self)@ == (CpuModel {
                i: (old(self)@.i + old(self)@.registers[register as int]) % 0x10000,
                ..old(self)@
            }),
            final(self).wf() == old(self).wf(),
    {
        self.i = ((self.i as u32 + self.registers[register as usize] as u32) % 0x10000) as u16;
    }

    /// Writes the decimal digits of `register` from the address register on.
    fn register_to_bcd(&self, register: u8, ram: &mut RAM) -> (r: Result<bool, CpuError>)
        requires
            register < 16,
        ensures
            r == outcome(self@, None, false, Instruction::StoreBcd(register)),
            r is Err ==> final(ram)@ == old(ram)@,
            r is Ok ==> final(ram)@ == next_memory(self@, old(ram)@, Instruction::StoreBcd(register)),
    {
        let i = self.i as usize;
        if i + 3 > RAM_SIZE {
            return Err(CpuError::AddressOutOfRange);
        }
        let v = self.registers[register as usize];
        ram.set(i, v / 100);
        ram.set(i + 1, (v % 100) / 10);
        ram.set(i + 2, v % 10);
        Ok(true)
    }

    /// Copies registers 0..=x to memory from the address register on.
    pub fn copy_x_to_ram(&self, x: u8, ram: &mut RAM) -> (r: Result<bool, CpuError>)
        requires
            x < 16,
        ensures
            r == outcome(self@, None, false, Instruction::StoreRegisters(x)),
            r is Err ==> final(ram)@ == old(ram)@,
            r is Ok ==> final(ram)@ == next_memory(self@, old(ram)@, Instruction::StoreRegisters(x)),
    {
        let base = self.i as usize;
        if base + x as usize + 1 > RAM_SIZE {
            return Err(CpuError::AddressOutOfRange);
        }
        let count = x as usize + 1;
        let mut nr: usize = 0;
        proof {
            ram.lemma_len();
        }
        while nr < count
            invariant
                x < 16,
                count == x + 1,
                base + count <= RAM_SIZE,
                base == self@.i,
                nr <= count,
                ram@.len() == RAM_SIZE,
                ram@ =~= write_range(old(ram)@, base as int, self@.registers.subrange(0, nr as int)),
            decreases count - nr,
        {
            ram.set(base + nr, self.registers[nr]);
            nr += 1;
        }
        Ok(true)
    }

    /// Copies memory from the address register on into registers 0..=x.
    pub fn copy_ram_to_x(&mut self, x: u8, ram: &RAM) -> (r: Result<bool, CpuError>)
        requires
            x < 16,
        ensures
            r == outcome(old(self)@, None, false, Instruction::LoadRegisters(x)),
            r is Err ==> final(self)@ == old(self)@,
            r is Ok ==> final(self)@ == next_state(
                old(self)@,
                ram@,
                None,
                Seq::empty(),
                0,
                Instruction::LoadRegisters(x),
            ),
            final(self).wf() == old(self).wf(),
    {
        let base = self.i as usize;
        if base + x as usize + 1 > RAM_SIZE {
            return Err(CpuError::AddressOutOfRange);
        }
        let count = x as usize + 1;
        let mut nr: usize = 0;
        proof {
            ram.lemma_len();
            assert(old(self)@.registers =~= write_range(old(self)@.registers, 0, ram@.subrange(base as int, base as int)));
        }
        while nr < count
            invariant
                x < 16,
                count == x + 1,
                base + count <= RAM_SIZE,
                base == old(self)@.i,
                nr <= count,
                ram@.len() == RAM_SIZE,
                self@ == (CpuModel {
                    registers: write_range(old(self)@.registers, 0, ram@.subrange(base as int, base + nr)),
                    ..old(self)@
                }),
            decreases count - nr,
        {
            self.registers[nr] = ram.get(base + nr);
            nr += 1;
            assert(self@.registers =~= write_range(old(self)@.registers, 0, ram@.subrange(base as int, base + nr)));
        }
        Ok(true)
    }

    /// Draws an `nr`-row sprite from the address register at the coordinates in
    /// `register1` and `register2`; register 15 records a collision.
    fn draw(&mut self, ram: &RAM, register1: u8, register2: u8, nr: u8, display: &mut Display) -> (r: Result<bool, CpuError>)
        requires
            register1 < 16,
            register2 < 16,
        ensures
            r == outcome(old(self)@, None, true, Instruction::Draw(register1, register2, nr)),
            r is Err ==> final(self)@ == old(self)@ && final(display)@ == old(display)@,
            r is Ok ==> final(self)@ == next_state(
                old(self)@,
                ram@,
                None,
                old(display)@,
                0,
                Instruction::Draw(register1,
                register2,
                nr),
            ),
            r is Ok ==> final(display)@ == next_pixels(old(self)@, ram@, old(display)@, Instruction::Draw(register1, register2, nr)),
            final(self).wf() == old(self).wf(),
    {
        let x = self.registers[register1 as usize];
        let y = self.registers[register2 as usize];
        let base = self.i as usize;
        if base + nr as usize > RAM_SIZE {
            return Err(CpuError::AddressOutOfRange);
        }
        proof {
            ram.lemma_len();
            assert(ram@.subrange(base as int, base as int).len() == 0);
        }
        let mut collision = false;
        let mut row: usize = 0;
        while row < nr as usize
            invariant
                row <= nr,
                base + nr <= RAM_SIZE,
                base == old(self)@.i,
                ram@.len() == RAM_SIZE,
                display@ == drawn_sprite(old(display)@, x as int, y as int, ram@.subrange(base as int, base + row)),
                collision == sprite_collides(old(display)@, x as int, y as int, ram@.subrange(base as int, base + row)),
            decreases nr - row,
        {
            let value = ram.get(base + row);
            let hit = display.draw(x as usize, y as usize + row, value);
            collision = collision || hit;
            proof {
                let rows = ram@.subrange(base as int, base + row + 1);
                assert(rows.drop_last() =~= ram@.subrange(base as int, base + row));
                assert(rows.last() == value);
            }
            row += 1;
        }
        if collision {
            self.registers[SPECIAL_REGISTER] = 1;
        } else {
            self.registers[SPECIAL_REGISTER] = 0;
        }
        Ok(true)
    }

    /// Skips the next instruction when the key named by `register` is down
    /// (`pressed`) or up (`!pressed`).
    fn skip_if_key(&mut self, register: u8, keypad: &[bool; 16], pressed: bool) -> (r: Result<bool, CpuError>)
        requires
            register < 16,
            old(self).program_counter + 2 <= usize::MAX,
        ensures
            r == (if old(self)@.registers[register as int] >= 16 {
                Err(CpuError::InvalidKey(old(self)@.registers[register as int]))
            } else {
                Ok(true)
            }),
            r is Err ==> final(self)@ == old(self)@,
            r is Ok ==> final(self)@ == (if keypad@[old(self)@.registers[register as int] as int] == pressed {
                CpuModel { program_counter: old(self)@.program_counter + 2, ..old(self)@ }
            } else {
                old(self)@
            }),
            final(self).wf() == old(self).wf(),
    {
        let value = self.registers[register as usize];
        if value as usize >= 16 {
            return Err(CpuError::InvalidKey(value));
        }
        let down = keypad[value as usize];
        self.skip_if(down == pressed);
        Ok(true)
    }

    /// Captures the first key that is down, or rewinds to wait for one.
    fn await_any_key_press(&mut self, register: u8, keypad: &[bool; 16])
        requires
            register < 16,
            old(self).program_counter >= 2,
        ensures
            final(self)@ == (if any_pressed(keypad@) {
                CpuModel { registers: old(self)@.registers.update(register as int, first_pressed(keypad@) as u8), ..old(self)@ }
            } else {
                CpuModel { program_counter: old(self)@.program_counter - 2, ..old(self)@ }
            }),
            final(self).wf() == old(self).wf(),
    {
        let mut index: usize = 0;
        while index < 16
            invariant
                index <= 16,
                register < 16,
                *self == *old(self),
                forall|j: int| 0 <= j < index ==> !keypad@[j],
            decreases 16 - index,
        {
            if keypad[index] {
                proof {
                    assert(any_pressed(keypad@));
                    let k = first_pressed(keypad@);
                    assert(0 <= index < 16 && keypad@[index as int] && forall|j: int|
                        0 <= j < index ==> !keypad@[j]);
                    if k < index {
                        assert(!keypad@[k]);
                    } else if k > index {
                        assert(!keypad@[index as int]);
                    }
                }
                self.registers[register as usize] = index as u8;
                return;
            }
            index += 1;
        }
        self.program_counter -= 2;
    }

    /// Executes one decoded instruction whose word has already been fetched,
    /// the program counter already past it. `random` is the byte that
    /// `Random` masks.
    pub fn execute(
        &mut self,
        ins: Instruction,
        ram: &mut RAM,
        keypad: Option<&[bool; 16]>,
        display: Option<&mut Display>,
        random: u8,
    ) -> (r: Result<bool, CpuError>)
        requires
            old(self).wf(),
            ins.wf(),
            2 <= old(self).program_counter < 0x10000,
        ensures
            final(self).wf(),
            r == outcome(old(self)@, key_state(keypad), display is Some, ins),
            r is Err ==> final(self)@ == old(self)@ && final(ram)@ == old(ram)@ && (display is Some
                ==> final(display.unwrap())@ == screen_of(display)),
            r is Ok ==> final(self)@ == next_state(
                old(self)@,
                old(ram)@,
                key_state(keypad),
                screen_of(display),
                random,
                ins,
            ),
            r is Ok ==> final(ram)@ == next_memory(old(self)@, old(ram)@, ins),
            r is Ok && display is Some ==> final(display.unwrap())@ == next_pixels(
                old(self)@,
                old(ram)@,
                screen_of(display),
                ins,
            ),
    {
        match ins {
            Instruction::Halt => Ok(false),
            Instruction::ClearDisplay => match display {
                Some(d) => {
                    proof {
                        d.lemma_len();
                    }
                    d.clear_display();
                    Ok(true)
                },
                None => Err(CpuError::NoDisplay),
            },
            Instruction::Return => self.ret(),
            Instruction::Jump(n) => {
                self.jump(n);
                Ok(true)
            },
            Instruction::Call(n) => self.call(n),
            Instruction::SkipIfEqualValue(x, kk) => {
                let v = self.registers[x as usize];
                self.skip_if(v == kk);
                Ok(true)
            },
            Instruction::SkipIfNotEqualValue(x, kk) => {
                let v = self.registers[x as usize];
                self.skip_if(v != kk);
                Ok(true)
            },
            Instruction::SkipIfEqualRegisters(x, y) => {
                let a = self.registers[x as usize];
                let b = self.registers[y as usize];
                self.skip_if(a == b);
                Ok(true)
            },
            Instruction::SkipIfNotEqualRegisters(x, y) => {
                let a = self.registers[x as usize];
                let b = self.registers[y as usize];
                self.skip_if(a != b);
                Ok(true)
            },
            Instruction::LoadValue(x, kk) => {
                self.set_register(x as usize, kk);
                Ok(true)
            },
            Instruction::AddValue(x, kk) => {
                self.add_kk_to_x(x, kk);
                Ok(true)
            },
            Instruction::LoadRegister(x, y) => {
                let v = self.registers[y as usize];
                self.set_register(x as usize, v);
                Ok(true)
            },
            Instruction::Or(x, y) => {
                let v = self.registers[x as usize] | self.registers[y as usize];
                self.set_register(x as usize, v);
                Ok(true)
            },
            Instruction::And(x, y) => {
                let v = self.registers[x as usize] & self.registers[y as usize];
                self.set_register(x as usize, v);
                Ok(true)
            },
            Instruction::Xor(x, y) => {
                let v = self.registers[x as usize] ^ self.registers[y as usize];
                self.set_register(x as usize, v);
                Ok(true)
            },
            Instruction::AddRegisters(x, y) => {
                self.add_y_to_x(x, y);
                Ok(true)
            },
            Instruction::Sub(x, y) => {
                self.sub_y_from_x(x, y);
                Ok(true)
            },
            Instruction::SubReverse(x, y) => {
                self.sub_x_from_y(x, y);
                Ok(true)
            },
            Instruction::ShiftRight(x) => {
                self.rshift_x(x);
                Ok(true)
            },
            Instruction::ShiftLeft(x) => {
                self.lshift_x(x);
                Ok(true)
            },
            Instruction::SetI(n) => {
                self.i = n;
                Ok(true)
            },
            Instruction::JumpPlusV0(n) => {
                self.program_counter = n as usize + self.registers[0] as usize;
                Ok(true)
            },
            Instruction::Random(x, kk) => {
                self.random_and_value(x, kk, random);
                Ok(true)
            },
            Instruction::Draw(x, y, n) => match display {
                Some(d) => self.draw(ram, x, y, n, d),
                None => Err(CpuError::NoDisplay),
            },
            Instruction::SkipIfKeyPressed(x) => match keypad {
                Some(k) => self.skip_if_key(x, k, true),
                None => Err(CpuError::NoKeypad),
            },
            Instruction::SkipIfKeyNotPressed(x) => match keypad {
                Some(k) => self.skip_if_key(x, k, false),
                None => Err(CpuError::NoKeypad),
            },
            Instruction::LoadDelay(x) => {
                let v = self.delay_timer;
                self.set_register(x as usize, v);
                Ok(true)
            },
            Instruction::AwaitKey(x) => match keypad {
                Some(k) => {
                    self.await_any_key_press(x, k);
                    Ok(true)
                },
                None => Err(CpuError::NoKeypad),
            },
            Instruction::SetDelay(x) => {
                self.delay_timer = self.registers[x as usize];
                Ok(true)
            },
            Instruction::SetSound(x) => {
                self.sound_timer = self.registers[x as usize];
                Ok(true)
            },
            Instruction::AddToI(x) => {
                self.add_register_to_i(x);
                Ok(true)
            },
            Instruction::LoadGlyph(x) => {
                self.set_i_to_char_loc(x);
                Ok(true)
            },
            Instruction::StoreBcd(x) => self.register_to_bcd(x, ram),
            Instruction::StoreRegisters(x) => self.copy_x_to_ram(x, ram),
            Instruction::LoadRegisters(x) => self.copy_ram_to_x(x, ram),
        }
    }

    /// Fetches the big-endian word at the program counter, advances the
    /// program counter by 2 and executes the instruction that the word
    /// encodes. Returns `Ok(false)` on the halt instruction, `Ok(true)` to go
    /// on, and the fatal condition otherwise.
    pub fn tick(
        &mut self,
        ram: &mut RAM,
        keypad: Option<&[bool; 16]>,
        display: Option<&mut Display>,
    ) -> (r: Result<bool, CpuError>)
        requires
            old(self).wf(),
        ensures
            final(self).wf(),
            !can_fetch(old(self)@) ==> r == Err::<bool, CpuError>(CpuError::AddressOutOfRange)
                && final(self)@ == old(self)@,
            r is Err ==> final(ram)@ == old(ram)@ && (display is Some ==> final(display.unwrap())@
                == screen_of(display)),
            can_fetch(old(self)@) ==> {
                let w = fetched(old(self)@, old(ram)@);
                let s = advanced(old(self)@);
                match decoded(w) {
                    None => r == Err::<bool, CpuError>(CpuError::InvalidInstruction(w)) && final(self)@
                        == s,
                    Some(ins) => {
                        &&& r == outcome(s, key_state(keypad), display is Some, ins)
                        &&& r is Err ==> final(self)@ == s
                        &&& r is Ok ==> exists|b: u8|
                            final(self)@ == #[trigger] next_state(
                                s,
                                old(ram)@,
                                key_state(keypad),
                                screen_of(display),
                                b,
                                ins,
                            )
                        &&& r is Ok ==> final(ram)@ == next_memory(s, old(ram)@, ins)
                        &&& r is Ok && display is Some ==> final(display.unwrap())@
                            == next_pixels(s, old(ram)@, screen_of(display), ins)
                    },
                }
            },
    {
        if self.program_counter >= RAM_SIZE - RAM_OFFSET - 1 {
            return Err(CpuError::AddressOutOfRange);
        }
        let opcode = ram.get_u16(RAM_OFFSET + self.program_counter);
        self.program_counter += 2;
        match decode(opcode) {
            None => Err(CpuError::InvalidInstruction(opcode)),
            Some(ins) => {
                let random = match ins {
                    Instruction::Random(_, _) => random_byte(),
                    _ => 0,
                };
                self.execute(ins, ram, keypad, display, random)
            },
        }
    }

    /// Counts both timers down by one where positive; the host calls this at 60 Hz.
    pub fn tick_timers(&mut self)
        ensures
            final(self)@ == (CpuModel {
                delay_timer: if old(self).delay_timer > 0 { (old(self).delay_timer - 1) as u8 } else { 0 },
                sound_timer: if old(self).sound_timer > 0 { (old(self).sound_timer - 1) as u8 } else { 0 },
                ..old(self)@
            }),
            final(self).wf() == old(self).wf(),
    {
        if self.delay_timer > 0 {
            self.delay_timer -= 1;
        }
        if self.sound_timer > 0 {
            self.sound_timer -= 1;
        }
    }
}

} // verus!

verus! {

/// A call to a subroutine that adds register `y` into register `x` and
/// returns comes back to the word after the call, with the registers as the
/// addition leaves them and the stack as before.
pub proof fn lemma_call_return(s: CpuModel, mem: Seq<u8>, n: u16, x: u8, y: u8)
    requires
        mem.len() == RAM_SIZE,
        0 <= s.program_counter,
        RAM_OFFSET + s.program_counter + 2 <= RAM_SIZE,
        0 <= s.stack_pointer < STACK_SIZE,
        s.stack.len() == STACK_SIZE,
        s.registers.len() == 16,
        n < 4096,
        x < 16,
        y < 16,
        RAM_OFFSET + n + 4 <= RAM_SIZE,
        fetched(s, mem) == Instruction::Call(n).encoding(),
        word_at(mem, RAM_OFFSET + n) == Instruction::AddRegisters(x, y).encoding(),
        word_at(mem, RAM_OFFSET + n + 2) == Instruction::Return.encoding(),
    ensures
        ({
            let s1 = next_state(advanced(s), mem, None, Seq::empty(), 0, Instruction::Call(n));
            let s2 = next_state(advanced(s1), mem, None, Seq::empty(), 0, Instruction::AddRegisters(x, y));
            let s3 = next_state(advanced(s2), mem, None, Seq::empty(), 0, Instruction::Return);
            &&& can_fetch(s) && decoded(fetched(s, mem)) == Some(Instruction::Call(n))
            &&& outcome(advanced(s), None, false, Instruction::Call(n)) == Ok::<bool, CpuError>(true)
            &&& can_fetch(s1) && decoded(fetched(s1, mem)) == Some(Instruction::AddRegisters(x, y))
            &&& outcome(advanced(s1), None, false, Instruction::AddRegisters(x, y)) == Ok::<bool, CpuError>(true)
            &&& can_fetch(s2) && decoded(fetched(s2, mem)) == Some(Instruction::Return)
            &&& outcome(advanced(s2), None, false, Instruction::Return) == Ok::<bool, CpuError>(true)
            &&& s3.program_counter == s.program_counter + 2
            &&& s3.registers == add_with_carry(s.registers, x as int, s.registers[y as int])
            &&& s3.stack_pointer == s.stack_pointer
            &&& s3.i == s.i
        }),
{
    lemma_decoded_encoding(Instruction::Call(n));
    lemma_decoded_encoding(Instruction::AddRegisters(x, y));
    lemma_decoded_encoding(Instruction::Return);
    let s1 = next_state(advanced(s), mem, None, Seq::empty(), 0, Instruction::Call(n));
    assert(s1.stack[s.stack_pointer] == (s.program_counter + 2) as u16);
}

/// Storing registers 0..=x at the address register and loading them back
/// leaves every register as it was.
pub proof fn lemma_block_transfer(s: CpuModel, mem: Seq<u8>, x: u8)
    requires
        mem.len() == RAM_SIZE,
        s.registers.len() == 16,
        x < 16,
        0 <= s.i,
        s.i + x + 1 <= RAM_SIZE,
    ensures
        outcome(s, None, false, Instruction::StoreRegisters(x)) == Ok::<bool, CpuError>(true),
        outcome(s, None, false, Instruction::LoadRegisters(x)) == Ok::<bool, CpuError>(true),
        next_state(
            s,
            next_memory(s, mem, Instruction::StoreRegisters(x)),
            None,
            Seq::empty(),
            0,
            Instruction::LoadRegisters(x),
        ).registers == s.registers,
{
    let mem2 = next_memory(s, mem, Instruction::StoreRegisters(x));
    let regs = next_state(s, mem2, None, Seq::empty(), 0, Instruction::LoadRegisters(x)).registers;
    assert(regs =~= s.registers);
}

/// The state after `k` nested calls to `n`, each made from the state the
/// previous one left.
pub open spec fn nested_calls(s: CpuModel, n: u16, k: nat) -> CpuModel
    decreases k,
{
    if k == 0 {
        s
    } else {
        next_state(
            advanced(nested_calls(s, n, (k - 1) as nat)),
            Seq::empty(),
            None,
            Seq::empty(),
            0,
            Instruction::Call(n),
        )
    }
}

/// Each nested call takes one more stack entry.
proof fn lemma_nested_depth(s: CpuModel, n: u16, k: nat)
    requires
        s.stack_pointer == 0,
    ensures
        nested_calls(s, n, k).stack_pointer == k,
    decreases k,
{
    if k > 0 {
        lemma_nested_depth(s, n, (k - 1) as nat);
    }
}

/// From an empty stack, calls nest up to the stack's capacity, and one call
/// beyond it is a stack overflow.
pub proof fn lemma_call_depth(s: CpuModel, n: u16)
    requires
        s.stack_pointer == 0,
    ensures
        forall|k: nat|
            k < STACK_SIZE ==> outcome(
                advanced(#[trigger] nested_calls(s, n, k)),
                None,
                false,
                Instruction::Call(n),
            ) == Ok::<bool, CpuError>(true),
        outcome(
            advanced(nested_calls(s, n, STACK_SIZE as nat)),
            None,
            false,
            Instruction::Call(n),
        ) == Err::<bool, CpuError>(CpuError::StackOverflow),
{
    assert forall|k: nat| k < STACK_SIZE implies outcome(
        advanced(#[trigger] nested_calls(s, n, k)),
        None,
        false,
        Instruction::Call(n),
    ) == Ok::<bool, CpuError>(true) by {
        lemma_nested_depth(s, n, k);
    }
    lemma_nested_depth(s, n, STACK_SIZE as nat);
}

} // verus!
