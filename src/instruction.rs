use vstd::prelude::*;

verus! {

/// One decoded instruction. Register operands are indices 0..=15, addresses
/// are 12 bits wide.
#[derive(Clone, Copy, Debug, PartialEq, Eq, Structural)]
pub enum Instruction {
    /// Stop execution.
    Halt,
    /// Clear the display.
    ClearDisplay,
    /// Return from a subroutine.
    Return,
    /// Jump to an address.
    Jump(u16),
    /// Call the subroutine at an address.
    Call(u16),
    /// Skip the next instruction when register x equals kk.
    SkipIfEqualValue(u8, u8),
    /// Skip the next instruction when register x differs from kk.
    SkipIfNotEqualValue(u8, u8),
    /// Skip the next instruction when registers x and y are equal.
    SkipIfEqualRegisters(u8, u8),
    /// Load kk into register x.
    LoadValue(u8, u8),
    /// Add kk to register x, with carry into register 15.
    AddValue(u8, u8),
    /// Copy register y into register x.
    LoadRegister(u8, u8),
    /// Register x |= register y.
    Or(u8, u8),
    /// Register x &= register y.
    And(u8, u8),
    /// Register x ^= register y.
    Xor(u8, u8),
    /// Add register y to register x, with carry into register 15.
    AddRegisters(u8, u8),
    /// Register x -= register y, register 15 set when no borrow occurred.
    Sub(u8, u8),
    /// Shift register x right by one, the bit shifted out into register 15.
    ShiftRight(u8),
    /// Register x = register y - register x, register 15 set when no borrow occurred.
    SubReverse(u8, u8),
    /// Shift register x left by one, the bit shifted out into register 15.
    ShiftLeft(u8),
    /// Skip the next instruction when registers x and y differ.
    SkipIfNotEqualRegisters(u8, u8),
    /// Load an address into the address register.
    SetI(u16),
    /// Jump to an address plus register 0.
    JumpPlusV0(u16),
    /// Load a random byte masked with kk into register x.
    Random(u8, u8),
    /// XOR an n-row sprite from the address register onto the screen at the
    /// coordinates held in registers x and y; register 15 becomes 1 when a
    /// lit pixel was turned off, else 0.
    Draw(u8, u8, u8),
    /// Skip the next instruction when the key named by register x is down.
    SkipIfKeyPressed(u8),
    /// Skip the next instruction when the key named by register x is up.
    SkipIfKeyNotPressed(u8),
    /// Load the delay timer into register x.
    LoadDelay(u8),
    /// Store the index of the first key that is down in register x; while
    /// none is, execute this instruction again on the next tick.
    AwaitKey(u8),
    /// Load register x into the delay timer.
    SetDelay(u8),
    /// Load register x into the sound timer.
    SetSound(u8),
    /// Add register x to the address register.
    AddToI(u8),
    /// Point the address register at the glyph for the value of register x.
    LoadGlyph(u8),
    /// Store the decimal digits of register x at the address register.
    StoreBcd(u8),
    /// Store registers 0..=x in memory from the address register on.
    StoreRegisters(u8),
    /// Load registers 0..=x from memory from the address register on.
    LoadRegisters(u8),
}

/// The word `[g:4][x:4][y:4][d:4]`.
pub open spec fn word_xyd(g: int, x: u8, y: u8, d: u8) -> u16 {
    (g * 4096 + x * 256 + y * 16 + d) as u16
}

/// The word `[g:4][x:4][kk:8]`.
pub open spec fn word_xkk(g: int, x: u8, kk: u8) -> u16 {
    (g * 4096 + x * 256 + kk) as u16
}

/// The word `[g:4][nnn:12]`.
pub open spec fn word_nnn(g: int, nnn: u16) -> u16 {
    (g * 4096 + nnn) as u16
}

impl Instruction {
    /// Every operand fits its field of the instruction word.
    pub open spec fn wf(self) -> bool {
        match self {
            Instruction::Halt | Instruction::ClearDisplay | Instruction::Return => true,
            Instruction::Jump(n) | Instruction::Call(n) | Instruction::SetI(n)
            | Instruction::JumpPlusV0(n) => n < 4096,
            Instruction::SkipIfEqualValue(x, _) | Instruction::SkipIfNotEqualValue(x, _)
            | Instruction::LoadValue(x, _) | Instruction::AddValue(x, _)
            | Instruction::Random(x, _) => x < 16,
            Instruction::SkipIfEqualRegisters(x, y) | Instruction::LoadRegister(x, y)
            | Instruction::Or(x, y) | Instruction::And(x, y) | Instruction::Xor(x, y)
            | Instruction::AddRegisters(x, y) | Instruction::Sub(x, y)
            | Instruction::SubReverse(x, y)
            | Instruction::SkipIfNotEqualRegisters(x, y) => x < 16 && y < 16,
            Instruction::Draw(x, y, n) => x < 16 && y < 16 && n < 16,
            Instruction::ShiftRight(x) | Instruction::ShiftLeft(x)
            | Instruction::SkipIfKeyPressed(x) | Instruction::SkipIfKeyNotPressed(x)
            | Instruction::LoadDelay(x) | Instruction::AwaitKey(x) | Instruction::SetDelay(x)
            | Instruction::SetSound(x) | Instruction::AddToI(x) | Instruction::LoadGlyph(x)
            | Instruction::StoreBcd(x) | Instruction::StoreRegisters(x)
            | Instruction::LoadRegisters(x) => x < 16,
        }
    }

    /// The 16-bit word that encodes the instruction.
    pub open spec fn encoding(self) -> u16 {
        match self {
            Instruction::Halt => 0x0000,
            Instruction::ClearDisplay => 0x000E,
            Instruction::Return => 0x00EE,
            Instruction::Jump(n) => word_nnn(0x1, n),
            Instruction::Call(n) => word_nnn(0x2, n),
            Instruction::SkipIfEqualValue(x, kk) => word_xkk(0x3, x, kk),
            Instruction::SkipIfNotEqualValue(x, kk) => word_xkk(0x4, x, kk),
            Instruction::SkipIfEqualRegisters(x, y) => word_xyd(0x5, x, y, 0x0),
            Instruction::LoadValue(x, kk) => word_xkk(0x6, x, kk),
            Instruction::AddValue(x, kk) => word_xkk(0x7, x, kk),
            Instruction::LoadRegister(x, y) => word_xyd(0x8, x, y, 0x0),
            Instruction::Or(x, y) => word_xyd(0x8, x, y, 0x1),
            Instruction::And(x, y) => word_xyd(0x8, x, y, 0x2),
            Instruction::Xor(x, y) => word_xyd(0x8, x, y, 0x3),
            Instruction::AddRegisters(x, y) => word_xyd(0x8, x, y, 0x4),
            Instruction::Sub(x, y) => word_xyd(0x8, x, y, 0x5),
            Instruction::ShiftRight(x) => word_xyd(0x8, x, 0x0, 0x6),
            Instruction::SubReverse(x, y) => word_xyd(0x8, x, y, 0x7),
            Instruction::ShiftLeft(x) => word_xyd(0x8, x, 0x0, 0xE),
            Instruction::SkipIfNotEqualRegisters(x, y) => word_xyd(0x9, x, y, 0x0),
            Instruction::SetI(n) => word_nnn(0xA, n),
            Instruction::JumpPlusV0(n) => word_nnn(0xB, n),
            Instruction::Random(x, kk) => word_xkk(0xC, x, kk),
            Instruction::Draw(x, y, n) => word_xyd(0xD, x, y, n),
            Instruction::SkipIfKeyPressed(x) => word_xkk(0xE, x, 0x9E),
            Instruction::SkipIfKeyNotPressed(x) => word_xkk(0xE, x, 0xAE),
            Instruction::LoadDelay(x) => word_xkk(0xF, x, 0x07),
            Instruction::AwaitKey(x) => word_xkk(0xF, x, 0x0A),
            Instruction::SetDelay(x) => word_xkk(0xF, x, 0x15),
            Instruction::SetSound(x) => word_xkk(0xF, x, 0x18),
            Instruction::AddToI(x) => word_xkk(0xF, x, 0x1E),
            Instruction::LoadGlyph(x) => word_xkk(0xF, x, 0x29),
            Instruction::StoreBcd(x) => word_xkk(0xF, x, 0x33),
            Instruction::StoreRegisters(x) => word_xkk(0xF, x, 0x55),
            Instruction::LoadRegisters(x) => word_xkk(0xF, x, 0x65),
        }
    }

    /// The word that encodes a well-formed instruction.
    pub fn encode(&self) -> (r: u16)
        requires
            self.wf(),
        ensures
            r == self.encoding(),
    {
        match *self {
            Instruction::Halt => 0x0000,
            Instruction::ClearDisplay => 0x000E,
            Instruction::Return => 0x00EE,
            Instruction::Jump(n) => 0x1000 + n,
            Instruction::Call(n) => 0x2000 + n,
            Instruction::SkipIfEqualValue(x, kk) => 0x3000 + x as u16 * 256 + kk as u16,
            Instruction::SkipIfNotEqualValue(x, kk) => 0x4000 + x as u16 * 256 + kk as u16,
            Instruction::SkipIfEqualRegisters(x, y) => 0x5000 + x as u16 * 256 + y as u16 * 16,
            Instruction::LoadValue(x, kk) => 0x6000 + x as u16 * 256 + kk as u16,
            Instruction::AddValue(x, kk) => 0x7000 + x as u16 * 256 + kk as u16,
            Instruction::LoadRegister(x, y) => 0x8000 + x as u16 * 256 + y as u16 * 16,
            Instruction::Or(x, y) => 0x8001 + x as u16 * 256 + y as u16 * 16,
            Instruction::And(x, y) => 0x8002 + x as u16 * 256 + y as u16 * 16,
            Instruction::Xor(x, y) => 0x8003 + x as u16 * 256 + y as u16 * 16,
            Instruction::AddRegisters(x, y) => 0x8004 + x as u16 * 256 + y as u16 * 16,
            Instruction::Sub(x, y) => 0x8005 + x as u16 * 256 + y as u16 * 16,
            Instruction::ShiftRight(x) => 0x8006 + x as u16 * 256,
            Instruction::SubReverse(x, y) => 0x8007 + x as u16 * 256 + y as u16 * 16,
            Instruction::ShiftLeft(x) => 0x800E + x as u16 * 256,
            Instruction::SkipIfNotEqualRegisters(x, y) => 0x9000 + x as u16 * 256 + y as u16
                * 16,
            Instruction::SetI(n) => 0xA000 + n,
            Instruction::JumpPlusV0(n) => 0xB000 + n,
            Instruction::Random(x, kk) => 0xC000 + x as u16 * 256 + kk as u16,
            Instruction::Draw(x, y, n) => 0xD000 + x as u16 * 256 + y as u16 * 16 + n as u16,
            Instruction::SkipIfKeyPressed(x) => 0xE09E + x as u16 * 256,
            Instruction::SkipIfKeyNotPressed(x) => 0xE0AE + x as u16 * 256,
            Instruction::LoadDelay(x) => 0xF007 + x as u16 * 256,
            Instruction::AwaitKey(x) => 0xF00A + x as u16 * 256,
            Instruction::SetDelay(x) => 0xF015 + x as u16 * 256,
            Instruction::SetSound(x) => 0xF018 + x as u16 * 256,
            Instruction::AddToI(x) => 0xF01E + x as u16 * 256,
            Instruction::LoadGlyph(x) => 0xF029 + x as u16 * 256,
            Instruction::StoreBcd(x) => 0xF033 + x as u16 * 256,
            Instruction::StoreRegisters(x) => 0xF055 + x as u16 * 256,
            Instruction::LoadRegisters(x) => 0xF065 + x as u16 * 256,
        }
    }
}

/// The instruction that a word encodes, read from its fields: group (top
/// nibble), x, y and d (bottom nibble), kk (bottom byte) and nnn (bottom 12 bits).
pub open spec fn decoded(w: u16) -> Option<Instruction> {
    let g = (w / 4096) as u8;
    let x = ((w / 256) % 16) as u8;
    let y = ((w / 16) % 16) as u8;
    let d = (w % 16) as u8;
    let nnn = (w % 4096) as u16;
    let kk = (w % 256) as u8;
    match (g, x, y, d) {
        (0, 0, 0, 0) => Some(Instruction::Halt),
        (0, 0, 0, 0xE) => Some(Instruction::ClearDisplay),
        (0, 0, 0xE, 0xE) => Some(Instruction::Return),
        (0x1, _, _, _) => Some(Instruction::Jump(nnn)),
        (0x2, _, _, _) => Some(Instruction::Call(nnn)),
        (0x3, _, _, _) => Some(Instruction::SkipIfEqualValue(x, kk)),
        (0x4, _, _, _) => Some(Instruction::SkipIfNotEqualValue(x, kk)),
        (0x5, _, _, 0x0) => Some(Instruction::SkipIfEqualRegisters(x, y)),
        (0x6, _, _, _) => Some(Instruction::LoadValue(x, kk)),
        (0x7, _, _, _) => Some(Instruction::AddValue(x, kk)),
        (0x8, _, _, 0x0) => Some(Instruction::LoadRegister(x, y)),
        (0x8, _, _, 0x1) => Some(Instruction::Or(x, y)),
        (0x8, _, _, 0x2) => Some(Instruction::And(x, y)),
        (0x8, _, _, 0x3) => Some(Instruction::Xor(x, y)),
        (0x8, _, _, 0x4) => Some(Instruction::AddRegisters(x, y)),
        (0x8, _, _, 0x5) => Some(Instruction::Sub(x, y)),
        (0x8, _, 0x0, 0x6) => Some(Instruction::ShiftRight(x)),
        (0x8, _, _, 0x7) => Some(Instruction::SubReverse(x, y)),
        (0x8, _, 0x0, 0xE) => Some(Instruction::ShiftLeft(x)),
        (0x9, _, _, 0x0) => Some(Instruction::SkipIfNotEqualRegisters(x, y)),
        (0xA, _, _, _) => Some(Instruction::SetI(nnn)),
        (0xB, _, _, _) => Some(Instruction::JumpPlusV0(nnn)),
        (0xC, _, _, _) => Some(Instruction::Random(x, kk)),
        (0xD, _, _, _) => Some(Instruction::Draw(x, y, d)),
        (0xE, _, 0x9, 0xE) => Some(Instruction::SkipIfKeyPressed(x)),
        (0xE, _, 0xA, 0xE) => Some(Instruction::SkipIfKeyNotPressed(x)),
        (0xF, _, 0x0, 0x7) => Some(Instruction::LoadDelay(x)),
        (0xF, _, 0x0, 0xA) => Some(Instruction::AwaitKey(x)),
        (0xF, _, 0x1, 0x5) => Some(Instruction::SetDelay(x)),
        (0xF, _, 0x1, 0x8) => Some(Instruction::SetSound(x)),
        (0xF, _, 0x1, 0xE) => Some(Instruction::AddToI(x)),
        (0xF, _, 0x2, 0x9) => Some(Instruction::LoadGlyph(x)),
        (0xF, _, 0x3, 0x3) => Some(Instruction::StoreBcd(x)),
        (0xF, _, 0x5, 0x5) => Some(Instruction::StoreRegisters(x)),
        (0xF, _, 0x6, 0x5) => Some(Instruction::LoadRegisters(x)),
        _ => None,
    }
}

/// Decoding the word of a well-formed instruction gives that instruction back.
pub proof fn lemma_decoded_encoding(ins: Instruction)
    requires
        ins.wf(),
    ensures
        decoded(ins.encoding()) == Some(ins),
{
    match ins {
        Instruction::Jump(n) => lemma_nibbles(1, (n / 256) as u8, ((n / 16) % 16) as u8, (n % 16) as u8),
        Instruction::Call(n) => lemma_nibbles(2, (n / 256) as u8, ((n / 16) % 16) as u8, (n % 16) as u8),
        Instruction::SetI(n) => lemma_nibbles(10, (n / 256) as u8, ((n / 16) % 16) as u8, (n % 16) as u8),
        Instruction::JumpPlusV0(n) => lemma_nibbles(11, (n / 256) as u8, ((n / 16) % 16) as u8, (n % 16) as u8),
        Instruction::SkipIfEqualValue(x, kk) => lemma_nibbles(3, x, kk / 16, kk % 16),
        Instruction::SkipIfNotEqualValue(x, kk) => lemma_nibbles(4, x, kk / 16, kk % 16),
        Instruction::LoadValue(x, kk) => lemma_nibbles(6, x, kk / 16, kk % 16),
        Instruction::AddValue(x, kk) => lemma_nibbles(7, x, kk / 16, kk % 16),
        Instruction::Random(x, kk) => lemma_nibbles(12, x, kk / 16, kk % 16),
        Instruction::SkipIfEqualRegisters(x, y) => lemma_nibbles(5, x, y, 0),
        Instruction::LoadRegister(x, y) => lemma_nibbles(8, x, y, 0),
        Instruction::SkipIfNotEqualRegisters(x, y) => lemma_nibbles(9, x, y, 0),
        Instruction::Or(x, y) => lemma_nibbles(8, x, y, 1),
        Instruction::And(x, y) => lemma_nibbles(8, x, y, 2),
        Instruction::Xor(x, y) => lemma_nibbles(8, x, y, 3),
        Instruction::AddRegisters(x, y) => lemma_nibbles(8, x, y, 4),
        Instruction::Sub(x, y) => lemma_nibbles(8, x, y, 5),
        Instruction::SubReverse(x, y) => lemma_nibbles(8, x, y, 7),
        Instruction::ShiftRight(x) => lemma_nibbles(8, x, 0, 6),
        Instruction::ShiftLeft(x) => lemma_nibbles(8, x, 0, 14),
        Instruction::Draw(x, y, n) => lemma_nibbles(13, x, y, n),
        Instruction::SkipIfKeyPressed(x) => lemma_nibbles(14, x, 9, 14),
        Instruction::SkipIfKeyNotPressed(x) => lemma_nibbles(14, x, 10, 14),
        Instruction::LoadDelay(x) => lemma_nibbles(15, x, 0, 7),
        Instruction::AwaitKey(x) => lemma_nibbles(15, x, 0, 10),
        Instruction::SetDelay(x) => lemma_nibbles(15, x, 1, 5),
        Instruction::SetSound(x) => lemma_nibbles(15, x, 1, 8),
        Instruction::AddToI(x) => lemma_nibbles(15, x, 1, 14),
        Instruction::LoadGlyph(x) => lemma_nibbles(15, x, 2, 9),
        Instruction::StoreBcd(x) => lemma_nibbles(15, x, 3, 3),
        Instruction::StoreRegisters(x) => lemma_nibbles(15, x, 5, 5),
        Instruction::LoadRegisters(x) => lemma_nibbles(15, x, 6, 5),
        _ => {},
    }
}

/// The fields of the word built from four nibbles.
proof fn lemma_nibbles(g: int, x: u8, y: u8, d: u8)
    requires
        0 <= g < 16,
        x < 16,
        y < 16,
        d < 16,
    ensures
        ({
            let w = g * 4096 + x * 256 + y * 16 + d;
            &&& w / 4096 == g
            &&& (w / 256) % 16 == x
            &&& (w / 16) % 16 == y
            &&& w % 16 == d
            &&& w % 4096 == x * 256 + y * 16 + d
            &&& w % 256 == y * 16 + d
        }),
{
    let w = g * 4096 + x * 256 + y * 16 + d;
    assert(w / 4096 == g && (w / 256) % 16 == x && (w / 16) % 16 == y && w % 16 == d && w % 4096
        == x * 256 + y * 16 + d && w % 256 == y * 16 + d) by (nonlinear_arith)
        requires
            w == g * 4096 + x * 256 + y * 16 + d,
            0 <= g < 16,
            0 <= x < 16,
            0 <= y < 16,
            0 <= d < 16,
    ;
}

/// Splits a word into its fields and finds the instruction it encodes.
pub fn decode(w: u16) -> (r: Option<Instruction>)
    ensures
        r == decoded(w),
        match r {
            Some(ins) => ins.wf() && ins.encoding() == w,
            None => forall|ins: Instruction| ins.wf() ==> ins.encoding() != w,
        },
{
    let g = (w / 4096) as u8;
    let x = ((w / 256) % 16) as u8;
    let y = ((w / 16) % 16) as u8;
    let d = (w % 16) as u8;
    let nnn = w % 4096;
    let kk = (w % 256) as u8;
    assert(w == g * 4096 + x * 256 + y * 16 + d);
    assert(kk == y * 16 + d);
    assert(nnn == x * 256 + kk);
    let r = match (g, x, y, d) {
        (0, 0, 0, 0) => Some(Instruction::Halt),
        (0, 0, 0, 0xE) => Some(Instruction::ClearDisplay),
        (0, 0, 0xE, 0xE) => Some(Instruction::Return),
        (0x1, _, _, _) => Some(Instruction::Jump(nnn)),
        (0x2, _, _, _) => Some(Instruction::Call(nnn)),
        (0x3, _, _, _) => Some(Instruction::SkipIfEqualValue(x, kk)),
        (0x4, _, _, _) => Some(Instruction::SkipIfNotEqualValue(x, kk)),
        (0x5, _, _, 0x0) => Some(Instruction::SkipIfEqualRegisters(x, y)),
        (0x6, _, _, _) => Some(Instruction::LoadValue(x, kk)),
        (0x7, _, _, _) => Some(Instruction::AddValue(x, kk)),
        (0x8, _, _, 0x0) => Some(Instruction::LoadRegister(x, y)),
        (0x8, _, _, 0x1) => Some(Instruction::Or(x, y)),
        (0x8, _, _, 0x2) => Some(Instruction::And(x, y)),
        (0x8, _, _, 0x3) => Some(Instruction::Xor(x, y)),
        (0x8, _, _, 0x4) => Some(Instruction::AddRegisters(x, y)),
        (0x8, _, _, 0x5) => Some(Instruction::Sub(x, y)),
        (0x8, _, 0x0, 0x6) => Some(Instruction::ShiftRight(x)),
        (0x8, _, _, 0x7) => Some(Instruction::SubReverse(x, y)),
        (0x8, _, 0x0, 0xE) => Some(Instruction::ShiftLeft(x)),
        (0x9, _, _, 0x0) => Some(Instruction::SkipIfNotEqualRegisters(x, y)),
        (0xA, _, _, _) => Some(Instruction::SetI(nnn)),
        (0xB, _, _, _) => Some(Instruction::JumpPlusV0(nnn)),
        (0xC, _, _, _) => Some(Instruction::Random(x, kk)),
        (0xD, _, _, _) => Some(Instruction::Draw(x, y, d)),
        (0xE, _, 0x9, 0xE) => Some(Instruction::SkipIfKeyPressed(x)),
        (0xE, _, 0xA, 0xE) => Some(Instruction::SkipIfKeyNotPressed(x)),
        (0xF, _, 0x0, 0x7) => Some(Instruction::LoadDelay(x)),
        (0xF, _, 0x0, 0xA) => Some(Instruction::AwaitKey(x)),
        (0xF, _, 0x1, 0x5) => Some(Instruction::SetDelay(x)),
        (0xF, _, 0x1, 0x8) => Some(Instruction::SetSound(x)),
        (0xF, _, 0x1, 0xE) => Some(Instruction::AddToI(x)),
        (0xF, _, 0x2, 0x9) => Some(Instruction::LoadGlyph(x)),
        (0xF, _, 0x3, 0x3) => Some(Instruction::StoreBcd(x)),
        (0xF, _, 0x5, 0x5) => Some(Instruction::StoreRegisters(x)),
        (0xF, _, 0x6, 0x5) => Some(Instruction::LoadRegisters(x)),
        _ => None,
    };
    proof {
        if r.is_none() {
            assert forall|ins: Instruction| ins.wf() implies ins.encoding() != w by {
                if ins.encoding() == w {
                    lemma_decoded_encoding(ins);
                }
            }
        }
    }
    r
}

} // verus!
