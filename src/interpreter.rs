use crate::instruction::{word_nnn, word_xkk, word_xyd};
use crate::instruction::Instruction;
use crate::ram::{high_byte, low_byte, word_at, write_range, RAM, RAM_OFFSET, RAM_SIZE};
use crate::text::{decimal, decimal_chars, hex_u16, parse_hex, views, words, words_of};
use vstd::prelude::*;

verus! {

/// Number of bytes of the program image, from `RAM_OFFSET` to the end of memory.
pub const PROGRAM_SIZE: usize = 0xE00;

/// The word written where a subroutine is referenced, until resolution
/// patches it; it encodes no instruction.
pub const PLACEHOLDER: u16 = 0xFFFF;

/// An error met while assembling.
#[derive(Clone, Debug, PartialEq, Eq)]
pub enum AsmError {
    /// The operand at this position of the line is missing.
    InvalidIndex(usize),
    /// This operand is no hexadecimal 16-bit number.
    InvalidNumber(String),
    /// This operand does not fit its field of the instruction.
    OperandOutOfRange(String),
    /// A definition opened inside another.
    NestedDefinition,
    /// A definition directive without a name.
    MissingName,
    /// A second definition of this name.
    Redeclared(String),
    /// A directive other than `#f`.
    UnknownDirective(String),
    /// The program image is full.
    ProgramTooLarge,
    /// A reference to a subroutine that is never defined.
    Undefined(String),
}

/// An assembler error as mathematical values.
pub enum AsmFault {
    InvalidIndex(int),
    InvalidNumber(Seq<char>),
    OperandOutOfRange(Seq<char>),
    NestedDefinition,
    MissingName,
    Redeclared(Seq<char>),
    UnknownDirective(Seq<char>),
    ProgramTooLarge,
    Undefined(Seq<char>),
}

impl View for AsmError {
    type V = AsmFault;

    open spec fn view(&self) -> AsmFault {
        match self {
            AsmError::InvalidIndex(k) => AsmFault::InvalidIndex(*k as int),
            AsmError::InvalidNumber(t) => AsmFault::InvalidNumber(t@),
            AsmError::OperandOutOfRange(t) => AsmFault::OperandOutOfRange(t@),
            AsmError::NestedDefinition => AsmFault::NestedDefinition,
            AsmError::MissingName => AsmFault::MissingName,
            AsmError::Redeclared(n) => AsmFault::Redeclared(n@),
            AsmError::UnknownDirective(d) => AsmFault::UnknownDirective(d@),
            AsmError::ProgramTooLarge => AsmFault::ProgramTooLarge,
            AsmError::Undefined(n) => AsmFault::Undefined(n@),
        }
    }
}

impl AsmError {
    /// A description of the error for people.
    pub fn message(&self) -> (r: String)
        ensures
            r@ == match self {
                AsmError::InvalidIndex(k) => "Invalid index '"@ + decimal_chars(*k as nat) + "'"@,
                AsmError::InvalidNumber(t) => "Invalid u16 '"@ + t@ + "'"@,
                AsmError::OperandOutOfRange(t) => "Operand out of range '"@ + t@ + "'"@,
                AsmError::NestedDefinition => "Cannot start a function in another function"@,
                AsmError::MissingName => "You need to provide a name when defining a function"@,
                AsmError::Redeclared(n) => "Redeclared function name "@ + n@,
                AsmError::UnknownDirective(d) => "Syntax error unknown special command "@ + d@,
                AsmError::ProgramTooLarge => "Program does not fit in memory"@,
                AsmError::Undefined(n) => "Undefined function "@ + n@,
            },
    {
        match self {
            AsmError::InvalidIndex(k) => String::from_str("Invalid index '").concat(
                decimal(*k).as_str(),
            ).concat("'"),
            AsmError::InvalidNumber(t) => String::from_str("Invalid u16 '").concat(t.as_str()).concat(
                "'",
            ),
            AsmError::OperandOutOfRange(t) => String::from_str("Operand out of range '").concat(
                t.as_str(),
            ).concat("'"),
            AsmError::NestedDefinition => String::from_str(
                "Cannot start a function in another function",
            ),
            AsmError::MissingName => String::from_str(
                "You need to provide a name when defining a function",
            ),
            AsmError::Redeclared(n) => String::from_str("Redeclared function name ").concat(
                n.as_str(),
            ),
            AsmError::UnknownDirective(d) => String::from_str(
                "Syntax error unknown special command ",
            ).concat(d.as_str()),
            AsmError::ProgramTooLarge => String::from_str("Program does not fit in memory"),
            AsmError::Undefined(n) => String::from_str("Undefined function ").concat(n.as_str()),
        }
    }
}

/// `r` is the error `f`.
pub open spec fn fails_with<T>(r: Result<T, AsmError>, f: AsmFault) -> bool {
    match r {
        Err(e) => e@ == f,
        Ok(_) => false,
    }
}

/// How a mnemonic takes its operands, with the fixed parts of its word.
#[derive(Clone, Copy, Debug, PartialEq, Eq)]
pub enum Shape {
    /// No operand: the word itself.
    Fixed(u16),
    /// The return instruction, which also closes an open definition.
    Ret,
    /// `x`: group, then the low byte.
    X(u16, u16),
    /// `x y`: group, then the low nibble.
    XY(u16, u16),
    /// `x y d`: group.
    XYD(u16),
    /// `x kk`: group.
    XKK(u16),
    /// `nnn`: group.
    NNN(u16),
}

/// The mnemonic table.
pub open spec fn mnemonic_shape(m: Seq<char>) -> Option<Shape> {
    if m == "EXT"@ { Some(Shape::Fixed(0x0000)) }
    else if m == "CLD"@ { Some(Shape::Fixed(0x000E)) }
    else if m == "RET"@ { Some(Shape::Ret) }
    else if m == "JMP"@ { Some(Shape::NNN(0x1)) }
    else if m == "CLL"@ { Some(Shape::NNN(0x2)) }
    else if m == "SEV"@ { Some(Shape::XKK(0x3)) }
    else if m == "SNEV"@ { Some(Shape::XKK(0x4)) }
    else if m == "SER"@ { Some(Shape::XY(0x5, 0x0)) }
    else if m == "STV"@ { Some(Shape::XKK(0x6)) }
    else if m == "ADDV"@ { Some(Shape::XKK(0x7)) }
    else if m == "STR"@ { Some(Shape::XY(0x8, 0x0)) }
    else if m == "OR"@ { Some(Shape::XY(0x8, 0x1)) }
    else if m == "AND"@ { Some(Shape::XY(0x8, 0x2)) }
    else if m == "XOR"@ { Some(Shape::XY(0x8, 0x3)) }
    else if m == "ADD"@ { Some(Shape::XY(0x8, 0x4)) }
    else if m == "SUB"@ { Some(Shape::XY(0x8, 0x5)) }
    else if m == "RSH"@ { Some(Shape::X(0x8, 0x06)) }
    else if m == "SUBR"@ { Some(Shape::XY(0x8, 0x7)) }
    else if m == "LSH"@ { Some(Shape::X(0x8, 0x0E)) }
    else if m == "SNER"@ { Some(Shape::XY(0x9, 0x0)) }
    else if m == "STI"@ { Some(Shape::NNN(0xA)) }
    else if m == "JMPR"@ { Some(Shape::NNN(0xB)) }
    else if m == "RND"@ { Some(Shape::XKK(0xC)) }
    else if m == "DRW"@ { Some(Shape::XYD(0xD)) }
    else if m == "SEP"@ { Some(Shape::X(0xE, 0x9E)) }
    else if m == "SENP"@ { Some(Shape::X(0xE, 0xAE)) }
    else if m == "STRD"@ { Some(Shape::X(0xF, 0x07)) }
    else if m == "WTP"@ { Some(Shape::X(0xF, 0x0A)) }
    else if m == "STDR"@ { Some(Shape::X(0xF, 0x15)) }
    else if m == "STRS"@ { Some(Shape::X(0xF, 0x18)) }
    else if m == "ADDI"@ { Some(Shape::X(0xF, 0x1E)) }
    else if m == "STIS"@ { Some(Shape::X(0xF, 0x29)) }
    else if m == "BCD"@ { Some(Shape::X(0xF, 0x33)) }
    else if m == "CTR"@ { Some(Shape::X(0xF, 0x55)) }
    else if m == "CFR"@ { Some(Shape::X(0xF, 0x65)) }
    else { None }
}

/// The operand at position `k` of a line's tokens, read as hexadecimal.
pub open spec fn operand(toks: Seq<Seq<char>>, k: int) -> Result<u16, AsmFault> {
    if k >= toks.len() {
        Err(AsmFault::InvalidIndex(k))
    } else {
        match hex_u16(toks[k]) {
            None => Err(AsmFault::InvalidNumber(toks[k])),
            Some(v) => Ok(v),
        }
    }
}

/// The operand at position `k`, which must be below `limit`.
pub open spec fn field(toks: Seq<Seq<char>>, k: int, limit: int) -> Result<u16, AsmFault> {
    match operand(toks, k) {
        Err(f) => Err(f),
        Ok(v) => if v >= limit {
            Err(AsmFault::OperandOutOfRange(toks[k]))
        } else {
            Ok(v)
        },
    }
}

/// The word that a mnemonic of shape `shape` with operands from `toks` encodes.
pub open spec fn shape_word(shape: Shape, toks: Seq<Seq<char>>) -> Result<u16, AsmFault> {
    match shape {
        Shape::Fixed(w) => Ok(w),
        Shape::Ret => Ok(0x00EE),
        Shape::X(g, e) => match field(toks, 1, 16) {
            Err(f) => Err(f),
            Ok(x) => Ok(word_xkk(g as int, x as u8, e as u8)),
        },
        Shape::XY(g, e) => match field(toks, 1, 16) {
            Err(f) => Err(f),
            Ok(x) => match field(toks, 2, 16) {
                Err(f) => Err(f),
                Ok(y) => Ok(word_xyd(g as int, x as u8, y as u8, e as u8)),
            },
        },
        Shape::XYD(g) => match field(toks, 1, 16) {
            Err(f) => Err(f),
            Ok(x) => match field(toks, 2, 16) {
                Err(f) => Err(f),
                Ok(y) => match field(toks, 3, 16) {
                    Err(f) => Err(f),
                    Ok(d) => Ok(word_xyd(g as int, x as u8, y as u8, d as u8)),
                },
            },
        },
        Shape::XKK(g) => match field(toks, 1, 16) {
            Err(f) => Err(f),
            Ok(x) => match field(toks, 2, 256) {
                Err(f) => Err(f),
                Ok(kk) => Ok(word_xkk(g as int, x as u8, kk as u8)),
            },
        },
        Shape::NNN(g) => match field(toks, 1, 4096) {
            Err(f) => Err(f),
            Ok(n) => Ok(word_nnn(g as int, n)),
        },
    }
}

/// The fixed parts of a shape fit their fields.
pub open spec fn shape_wf(shape: Shape) -> bool {
    match shape {
        Shape::X(g, e) => g < 16 && e < 256,
        Shape::XY(g, e) => g < 16 && e < 16,
        Shape::XYD(g) => g < 16,
        Shape::XKK(g) | Shape::NNN(g) => g < 16,
        _ => true,
    }
}

/// A named subroutine: its name and its encoded words.
pub struct Definition {
    pub name: String,
    pub body: Vec<u16>,
}

/// A place where a subroutine is referenced before resolution: in the program
/// image (`owner` is `None`, `position` a byte offset) or in the body of the
/// definition numbered `owner` (`position` a word index).
pub struct Reference {
    pub name: String,
    pub owner: Option<usize>,
    pub position: usize,
}

/// The assembler's state as mathematical values.
pub struct AsmModel {
    /// Next free byte offset of the program image.
    pub offset: int,
    /// The last definition is open and receives the emitted words.
    pub open: bool,
    /// Names and bodies of the definitions, in the order they were opened.
    pub defs: Seq<(Seq<char>, Seq<u16>)>,
    /// Names, owners and positions of the references, in source order.
    pub refs: Seq<(Seq<char>, Option<int>, int)>,
}

/// Some definition carries `name`.
pub open spec fn defined(m: AsmModel, name: Seq<char>) -> bool {
    exists|k: int| 0 <= k < m.defs.len() && m.defs[k].0 == name
}

/// Where the next word goes: owner and position, as a reference records them.
pub open spec fn here(m: AsmModel) -> (Option<int>, int) {
    if m.open {
        (Some(m.defs.len() - 1), m.defs.last().1.len() as int)
    } else {
        (None, m.offset)
    }
}

/// The state and memory after emitting `w`: appended to the open definition,
/// or written big-endian at the cursor of the program image.
pub open spec fn emit(m: AsmModel, mem: Seq<u8>, w: u16) -> Result<(AsmModel, Seq<u8>), AsmFault> {
    if m.open {
        let k = m.defs.len() - 1;
        Ok((AsmModel { defs: m.defs.update(k, (m.defs[k].0, m.defs[k].1.push(w))), ..m }, mem))
    } else if m.offset + 2 > PROGRAM_SIZE {
        Err(AsmFault::ProgramTooLarge)
    } else {
        let a = RAM_OFFSET + m.offset;
        Ok(
            (
                AsmModel { offset: m.offset + 2, ..m },
                mem.update(a, high_byte(w)).update(a + 1, low_byte(w)),
            ),
        )
    }
}

/// A token that starts a comment.
pub open spec fn is_comment(t: Seq<char>) -> bool {
    t.len() >= 2 && t[0] == '/' && t[1] == '/'
}

/// A token that names a directive.
pub open spec fn is_directive(t: Seq<char>) -> bool {
    t.len() > 0 && t[0] == '#'
}

/// The state after a directive line.
pub open spec fn directive(m: AsmModel, toks: Seq<Seq<char>>) -> Result<AsmModel, AsmFault> {
    if toks[0] != "#f"@ {
        Err(AsmFault::UnknownDirective(toks[0]))
    } else if m.open {
        Err(AsmFault::NestedDefinition)
    } else if toks.len() < 2 {
        Err(AsmFault::MissingName)
    } else if defined(m, toks[1]) {
        Err(AsmFault::Redeclared(toks[1]))
    } else {
        Ok(AsmModel { defs: m.defs.push((toks[1], seq![])), open: true, ..m })
    }
}

/// The state and memory after a mnemonic line whose shape is known.
pub open spec fn instruction_line(m: AsmModel, mem: Seq<u8>, shape: Shape, toks: Seq<Seq<char>>) -> Result<
    (AsmModel, Seq<u8>),
    AsmFault,
> {
    match shape_word(shape, toks) {
        Err(f) => Err(f),
        Ok(w) => match emit(m, mem, w) {
            Err(f) => Err(f),
            Ok(e) => if shape is Ret {
                Ok((AsmModel { open: false, ..e.0 }, e.1))
            } else {
                Ok(e)
            },
        },
    }
}

/// The state and memory after a reference to the subroutine `name`.
pub open spec fn reference_line(m: AsmModel, mem: Seq<u8>, name: Seq<char>) -> Result<
    (AsmModel, Seq<u8>),
    AsmFault,
> {
    emit(AsmModel { refs: m.refs.push((name, here(m).0, here(m).1)), ..m }, mem, PLACEHOLDER)
}

/// The state and memory after one source line.
pub open spec fn line_effect(m: AsmModel, mem: Seq<u8>, line: Seq<char>) -> Result<
    (AsmModel, Seq<u8>),
    AsmFault,
> {
    let toks = words(line);
    if toks.len() == 0 || is_comment(toks[0]) {
        Ok((m, mem))
    } else if is_directive(toks[0]) {
        match directive(m, toks) {
            Err(f) => Err(f),
            Ok(m2) => Ok((m2, mem)),
        }
    } else {
        match mnemonic_shape(toks[0]) {
            Some(shape) => instruction_line(m, mem, shape, toks),
            None => reference_line(m, mem, toks[0]),
        }
    }
}

/// `a` and `b` hold the same text.
fn same(a: &str, b: &str) -> (r: bool)
    ensures
        r == (a@ == b@),
{
    String::from_str(a) == String::from_str(b)
}

/// Looks a mnemonic up in the table.
pub fn shape_of(command: &str) -> (r: Option<Shape>)
    ensures
        r == mnemonic_shape(command@),
        r matches Some(s) ==> shape_wf(s),
{
    if same(command, "EXT") { Some(Shape::Fixed(0x0000)) }
    else if same(command, "CLD") { Some(Shape::Fixed(0x000E)) }
    else if same(command, "RET") { Some(Shape::Ret) }
    else if same(command, "JMP") { Some(Shape::NNN(0x1)) }
    else if same(command, "CLL") { Some(Shape::NNN(0x2)) }
    else if same(command, "SEV") { Some(Shape::XKK(0x3)) }
    else if same(command, "SNEV") { Some(Shape::XKK(0x4)) }
    else if same(command, "SER") { Some(Shape::XY(0x5, 0x0)) }
    else if same(command, "STV") { Some(Shape::XKK(0x6)) }
    else if same(command, "ADDV") { Some(Shape::XKK(0x7)) }
    else if same(command, "STR") { Some(Shape::XY(0x8, 0x0)) }
    else if same(command, "OR") { Some(Shape::XY(0x8, 0x1)) }
    else if same(command, "AND") { Some(Shape::XY(0x8, 0x2)) }
    else if same(command, "XOR") { Some(Shape::XY(0x8, 0x3)) }
    else if same(command, "ADD") { Some(Shape::XY(0x8, 0x4)) }
    else if same(command, "SUB") { Some(Shape::XY(0x8, 0x5)) }
    else if same(command, "RSH") { Some(Shape::X(0x8, 0x06)) }
    else if same(command, "SUBR") { Some(Shape::XY(0x8, 0x7)) }
    else if same(command, "LSH") { Some(Shape::X(0x8, 0x0E)) }
    else if same(command, "SNER") { Some(Shape::XY(0x9, 0x0)) }
    else if same(command, "STI") { Some(Shape::NNN(0xA)) }
    else if same(command, "JMPR") { Some(Shape::NNN(0xB)) }
    else if same(command, "RND") { Some(Shape::XKK(0xC)) }
    else if same(command, "DRW") { Some(Shape::XYD(0xD)) }
    else if same(command, "SEP") { Some(Shape::X(0xE, 0x9E)) }
    else if same(command, "SENP") { Some(Shape::X(0xE, 0xAE)) }
    else if same(command, "STRD") { Some(Shape::X(0xF, 0x07)) }
    else if same(command, "WTP") { Some(Shape::X(0xF, 0x0A)) }
    else if same(command, "STDR") { Some(Shape::X(0xF, 0x15)) }
    else if same(command, "STRS") { Some(Shape::X(0xF, 0x18)) }
    else if same(command, "ADDI") { Some(Shape::X(0xF, 0x1E)) }
    else if same(command, "STIS") { Some(Shape::X(0xF, 0x29)) }
    else if same(command, "BCD") { Some(Shape::X(0xF, 0x33)) }
    else if same(command, "CTR") { Some(Shape::X(0xF, 0x55)) }
    else if same(command, "CFR") { Some(Shape::X(0xF, 0x65)) }
    else { None }
}


/// `r`, the state `m` and the memory `mem` are what `effect` gives from the
/// state `m0` and memory `mem0`: `Ok(true)` with its state and memory, or its
/// error with the state and memory left as they were.
pub open spec fn settles(
    r: Result<bool, AsmError>,
    m: AsmModel,
    mem: Seq<u8>,
    m0: AsmModel,
    mem0: Seq<u8>,
    effect: Result<(AsmModel, Seq<u8>), AsmFault>,
) -> bool {
    match effect {
        Ok(e) => r == Ok::<bool, AsmError>(true) && m == e.0 && mem == e.1,
        Err(f) => fails_with(r, f) && m == m0 && mem == mem0,
    }
}

/// Emits the word `w` once it was read without error.
pub open spec fn emit_word(m: AsmModel, mem: Seq<u8>, w: Result<u16, AsmFault>) -> Result<
    (AsmModel, Seq<u8>),
    AsmFault,
> {
    match w {
        Err(f) => Err(f),
        Ok(w) => emit(m, mem, w),
    }
}

/// The words of all definition bodies, one after the other.
pub open spec fn body_words(defs: Seq<(Seq<char>, Seq<u16>)>) -> Seq<u16>
    decreases defs.len(),
{
    if defs.len() == 0 {
        seq![]
    } else {
        body_words(defs.drop_last()) + defs.last().1
    }
}

/// The image offset at which definition `k` starts once the bodies are
/// appended after the program image.
pub open spec fn start_of(m: AsmModel, k: int) -> int {
    m.offset + 2 * body_words(m.defs.take(k)).len()
}

/// The image offset just past the appended bodies.
pub open spec fn end_of(m: AsmModel) -> int {
    m.offset + 2 * body_words(m.defs).len()
}

/// The definition that carries `name`.
pub open spec fn target_of(m: AsmModel, name: Seq<char>) -> int {
    choose|k: int| 0 <= k < m.defs.len() && m.defs[k].0 == name
}

/// The image offset of a reference's placeholder once the bodies are appended.
pub open spec fn site_of(m: AsmModel, r: (Seq<char>, Option<int>, int)) -> int {
    match r.1 {
        None => r.2,
        Some(k) => start_of(m, k) + 2 * r.2,
    }
}

/// The call to the start of the definition named `name`.
pub open spec fn call_word(m: AsmModel, name: Seq<char>) -> u16 {
    word_nnn(2, start_of(m, target_of(m, name)) as u16)
}

/// Words as big-endian bytes.
pub open spec fn word_bytes(ws: Seq<u16>) -> Seq<u8> {
    Seq::new(
        2 * ws.len(),
        |a: int|
            if a % 2 == 0 {
                high_byte(ws[a / 2])
            } else {
                low_byte(ws[a / 2])
            },
    )
}

/// Memory with the bodies appended after the image and the first `n`
/// references patched into calls, in order.
pub open spec fn patched(m: AsmModel, mem: Seq<u8>, n: int) -> Seq<u8>
    decreases n,
{
    if n <= 0 {
        write_range(mem, RAM_OFFSET + m.offset, word_bytes(body_words(m.defs)))
    } else {
        let r = m.refs[n - 1];
        let a = RAM_OFFSET + site_of(m, r);
        let w = call_word(m, r.0);
        patched(m, mem, n - 1).update(a, high_byte(w)).update(a + 1, low_byte(w))
    }
}

/// Some reference names no definition.
pub open spec fn has_undefined(m: AsmModel) -> bool {
    exists|k: int| 0 <= k < m.refs.len() && !defined(m, m.refs[k].0)
}

/// The first reference that names no definition.
pub open spec fn first_undefined(m: AsmModel) -> int {
    choose|k: int|
        0 <= k < m.refs.len() && !defined(m, m.refs[k].0) && forall|j: int|
            0 <= j < k ==> defined(m, m.refs[j].0)
}

/// The state and memory after resolution: the bodies appended after the
/// image, every reference a call to its definition's start, the tables
/// emptied; or the error met.
pub open spec fn resolution(m: AsmModel, mem: Seq<u8>) -> Result<(AsmModel, Seq<u8>), AsmFault> {
    if end_of(m) > PROGRAM_SIZE {
        Err(AsmFault::ProgramTooLarge)
    } else if has_undefined(m) {
        Err(AsmFault::Undefined(m.refs[first_undefined(m)].0))
    } else {
        Ok(
            (
                AsmModel { offset: end_of(m), open: false, defs: seq![], refs: seq![] },
                patched(m, mem, m.refs.len() as int),
            ),
        )
    }
}

/// The bodies of more definitions take at least as many words.
pub proof fn lemma_body_words_grow(defs: Seq<(Seq<char>, Seq<u16>)>, i: int, j: int)
    requires
        0 <= i <= j <= defs.len(),
    ensures
        body_words(defs.take(i)).len() <= body_words(defs.take(j)).len(),
        body_words(defs.take(defs.len() as int)) == body_words(defs),
    decreases j - i,
{
    assert(defs.take(defs.len() as int) =~= defs);
    if i < j {
        lemma_body_words_grow(defs, i, j - 1);
        assert(defs.take(j).drop_last() =~= defs.take(j - 1));
    }
}

/// One more definition adds its body.
pub proof fn lemma_body_words_step(defs: Seq<(Seq<char>, Seq<u16>)>, k: int)
    requires
        0 <= k < defs.len(),
    ensures
        body_words(defs.take(k + 1)) == body_words(defs.take(k)) + defs[k].1,
{
    assert(defs.take(k + 1).drop_last() =~= defs.take(k));
}

/// Writing one more word extends the written range by its two bytes.
pub proof fn lemma_write_word(mem: Seq<u8>, base: int, ws: Seq<u16>, w: u16)
    requires
        0 <= base,
        base + 2 * ws.len() + 2 <= mem.len(),
    ensures
        write_range(mem, base, word_bytes(ws.push(w))) == write_range(mem, base, word_bytes(ws)).update(
            base + 2 * ws.len(),
            high_byte(w),
        ).update(base + 2 * ws.len() + 1, low_byte(w)),
{
    let a = base + 2 * ws.len();
    let lhs = write_range(mem, base, word_bytes(ws.push(w)));
    let rhs = write_range(mem, base, word_bytes(ws)).update(a, high_byte(w)).update(a + 1, low_byte(w));
    assert forall|i: int| 0 <= i < mem.len() implies lhs[i] == rhs[i] by {
        if base <= i < a {
            let o = i - base;
            assert(o / 2 < ws.len()) by (nonlinear_arith)
                requires
                    0 <= o < 2 * ws.len(),
            ;
            assert(ws.push(w)[o / 2] == ws[o / 2]);
        } else if i == a {
            assert((i - base) / 2 == ws.len() && (i - base) % 2 == 0) by (nonlinear_arith)
                requires
                    i - base == 2 * ws.len(),
            ;
        } else if i == a + 1 {
            assert((i - base) / 2 == ws.len() && (i - base) % 2 == 1) by (nonlinear_arith)
                requires
                    i - base == 2 * ws.len() + 1,
            ;
        }
    }
    assert(lhs =~= rhs);
}

/// The view of a reference's owner.
pub open spec fn owner_view(o: Option<usize>) -> Option<int> {
    match o {
        Some(k) => Some(k as int),
        None => None,
    }
}

/// A reference points at a placeholder already emitted: an even offset below
/// the cursor, or a word of an existing definition.
pub open spec fn reference_wf(m: AsmModel, r: (Seq<char>, Option<int>, int)) -> bool {
    match r.1 {
        None => r.2 % 2 == 0 && 0 <= r.2 && r.2 + 2 <= m.offset,
        Some(k) => 0 <= k < m.defs.len() && 0 <= r.2 < m.defs[k].1.len(),
    }
}

/// The invariant of the assembler's state.
pub open spec fn model_wf(m: AsmModel) -> bool {
    &&& m.offset % 2 == 0
    &&& 0 <= m.offset <= PROGRAM_SIZE
    &&& m.open ==> m.defs.len() > 0
    &&& forall|i: int, j: int| 0 <= i < j < m.defs.len() ==> m.defs[i].0 != m.defs[j].0
    &&& forall|k: int| 0 <= k < m.refs.len() ==> reference_wf(m, #[trigger] m.refs[k])
    &&& forall|i: int, j: int|
        0 <= i < j < m.refs.len() ==> (m.refs[i].1, m.refs[i].2) != (m.refs[j].1, m.refs[j].2)
}

/// The two-pass assembler: the first pass reads source lines into the
/// program image and into named definitions; resolution appends the
/// definitions and patches every reference into a call.
pub struct Interpreter {
    /// Next free byte offset of the program image, from `RAM_OFFSET`.
    pub offset: usize,
    /// The last definition is open.
    pub in_function: bool,
    /// The definitions, in the order they were opened.
    pub definitions: Vec<Definition>,
    /// The references, in source order.
    pub references: Vec<Reference>,
}

impl View for Interpreter {
    type V = AsmModel;

    open spec fn view(&self) -> AsmModel {
        AsmModel {
            offset: self.offset as int,
            open: self.in_function,
            defs: self.definitions@.map_values(|d: Definition| (d.name@, d.body@)),
            refs: self.references@.map_values(
                |r: Reference| (r.name@, owner_view(r.owner), r.position as int),
            ),
        }
    }
}

impl Interpreter {
    /// The state invariant holds.
    pub open spec fn wf(&self) -> bool {
        model_wf(self@)
    }

    /// An assembler with an empty program image and no definitions or references.
    pub fn new() -> (r: Interpreter)
        ensures
            r.wf(),
            r@ == (AsmModel { offset: 0, open: false, defs: seq![], refs: seq![] }),
    {
        let r = Interpreter {
            offset: 0,
            in_function: false,
            definitions: Vec::new(),
            references: Vec::new(),
        };
        assert(r@.defs =~= seq![]);
        assert(r@.refs =~= seq![]);
        r
    }

    /// Reads the operand at position `index` of `values` as hexadecimal.
    pub fn get_u16_value(&self, values: &Vec<&str>, index: usize) -> (r: Result<u16, AsmError>)
        ensures
            match operand(views(values@), index as int) {
                Ok(v) => r == Ok::<u16, AsmError>(v),
                Err(f) => fails_with(r, f),
            },
    {
        if index >= values.len() {
            return Err(AsmError::InvalidIndex(index));
        }
        let value = values[index];
        match parse_hex(value) {
            Some(v) => Ok(v),
            None => Err(AsmError::InvalidNumber(String::from_str(value))),
        }
    }

    /// Reads the operand at position `index`, which must be below `limit`.
    fn get_field(&self, values: &Vec<&str>, index: usize, limit: u16) -> (r: Result<u16, AsmError>)
        ensures
            match field(views(values@), index as int, limit as int) {
                Ok(v) => r == Ok::<u16, AsmError>(v),
                Err(f) => fails_with(r, f),
            },
    {
        let v = self.get_u16_value(values, index)?;
        if v >= limit {
            return Err(AsmError::OperandOutOfRange(String::from_str(values[index])));
        }
        Ok(v)
    }

    /// Emits one word: into the open definition, or into the program image
    /// at the cursor.
    pub fn add_instruction(&mut self, ram: &mut RAM, instruction: u16) -> (r: Result<bool, AsmError>)
        requires
            old(self).wf(),
        ensures
            final(self).wf(),
            settles(r, final(self)@, final(ram)@, old(self)@, old(ram)@, emit(old(self)@, old(ram)@, instruction)),
    {
        if self.in_function {
            let ghost before = self@;
            let mut d = self.definitions.pop().unwrap();
            d.body.push(instruction);
            self.definitions.push(d);
            proof {
                let k = before.defs.len() - 1;
                assert(self@.defs =~= before.defs.update(k, (before.defs[k].0, before.defs[k].1.push(instruction))));
                assert(self@.refs == before.refs);
                assert forall|j: int| 0 <= j < self@.refs.len() implies reference_wf(self@, #[trigger] self@.refs[j]) by {
                    assert(reference_wf(before, before.refs[j]));
                }
            }
            Ok(true)
        } else {
            if self.offset + 2 > PROGRAM_SIZE {
                return Err(AsmError::ProgramTooLarge);
            }
            ram.set_u16(RAM_OFFSET + self.offset, instruction);
            let ghost before = self@;
            self.offset += 2;
            proof {
                assert forall|j: int| 0 <= j < self@.refs.len() implies reference_wf(self@, #[trigger] self@.refs[j]) by {
                    assert(reference_wf(before, before.refs[j]));
                }
            }
            Ok(true)
        }
    }

    /// Emits `[start:4][x:4][end:8]` for the operand `x`.
    pub fn add_x_instruction(
        &mut self,
        ram: &mut RAM,
        start_instruction: u16,
        values: &Vec<&str>,
        end_instruction: u16,
    ) -> (r: Result<bool, AsmError>)
        requires
            old(self).wf(),
            start_instruction < 16,
            end_instruction < 256,
        ensures
            final(self).wf(),
            settles(r, final(self)@, final(ram)@, old(self)@, old(ram)@, emit_word(old(self)@, old(ram)@,
                shape_word(Shape::X(start_instruction, end_instruction), views(values@)))),
    {
        let x = self.get_field(values, 1, 16)?;
        let instruction = start_instruction * 4096 + x * 256 + end_instruction;
        self.add_instruction(ram, instruction)
    }

    /// Emits `[start:4][x:4][y:4][end:4]` for the operands `x y`.
    pub fn add_x_y_instruction(
        &mut self,
        ram: &mut RAM,
        start_instruction: u16,
        values: &Vec<&str>,
        end_instruction: u16,
    ) -> (r: Result<bool, AsmError>)
        requires
            old(self).wf(),
            start_instruction < 16,
            end_instruction < 16,
        ensures
            final(self).wf(),
            settles(r, final(self)@, final(ram)@, old(self)@, old(ram)@, emit_word(old(self)@, old(ram)@,
                shape_word(Shape::XY(start_instruction, end_instruction), views(values@)))),
    {
        let x = self.get_field(values, 1, 16)?;
        let y = self.get_field(values, 2, 16)?;
        let instruction = start_instruction * 4096 + x * 256 + y * 16 + end_instruction;
        self.add_instruction(ram, instruction)
    }

    /// Emits `[start:4][x:4][y:4][d:4]` for the operands `x y d`.
    pub fn add_x_y_d_instruction(
        &mut self,
        ram: &mut RAM,
        start_instruction: u16,
        values: &Vec<&str>,
    ) -> (r: Result<bool, AsmError>)
        requires
            old(self).wf(),
            start_instruction < 16,
        ensures
            final(self).wf(),
            settles(r, final(self)@, final(ram)@, old(self)@, old(ram)@, emit_word(old(self)@, old(ram)@,
                shape_word(Shape::XYD(start_instruction), views(values@)))),
    {
        let x = self.get_field(values, 1, 16)?;
        let y = self.get_field(values, 2, 16)?;
        let d = self.get_field(values, 3, 16)?;
        let instruction = start_instruction * 4096 + x * 256 + y * 16 + d;
        self.add_instruction(ram, instruction)
    }

    /// Emits `[start:4][x:4][kk:8]` for the operands `x kk`.
    pub fn add_x_kk_instruction(
        &mut self,
        ram: &mut RAM,
        start_instruction: u16,
        values: &Vec<&str>,
    ) -> (r: Result<bool, AsmError>)
        requires
            old(self).wf(),
            start_instruction < 16,
        ensures
            final(self).wf(),
            settles(r, final(self)@, final(ram)@, old(self)@, old(ram)@, emit_word(old(self)@, old(ram)@,
                shape_word(Shape::XKK(start_instruction), views(values@)))),
    {
        let x = self.get_field(values, 1, 16)?;
        let kk = self.get_field(values, 2, 256)?;
        let instruction = start_instruction * 4096 + x * 256 + kk;
        self.add_instruction(ram, instruction)
    }

    /// Emits `[start:4][nnn:12]` for the operand `nnn`.
    pub fn add_nnn_instruction(
        &mut self,
        ram: &mut RAM,
        start_instruction: u16,
        values: &Vec<&str>,
    ) -> (r: Result<bool, AsmError>)
        requires
            old(self).wf(),
            start_instruction < 16,
        ensures
            final(self).wf(),
            settles(r, final(self)@, final(ram)@, old(self)@, old(ram)@, emit_word(old(self)@, old(ram)@,
                shape_word(Shape::NNN(start_instruction), views(values@)))),
    {
        let nnn = self.get_field(values, 1, 4096)?;
        let instruction = start_instruction * 4096 + nnn;
        self.add_instruction(ram, instruction)
    }

    /// Emits the return word and closes the open definition, if any.
    pub fn add_ret_instruction(&mut self, ram: &mut RAM, instruction: u16) -> (r: Result<bool, AsmError>)
        requires
            old(self).wf(),
        ensures
            final(self).wf(),
            settles(r, final(self)@, final(ram)@, old(self)@, old(ram)@, match emit(old(self)@, old(ram)@, instruction) {
                Err(f) => Err(f),
                Ok(e) => Ok((AsmModel { open: false, ..e.0 }, e.1)),
            }),
    {
        self.add_instruction(ram, instruction)?;
        let ghost before = self@;
        self.in_function = false;
        proof {
            assert forall|j: int| 0 <= j < self@.refs.len() implies reference_wf(self@, #[trigger] self@.refs[j]) by {
                assert(reference_wf(before, before.refs[j]));
            }
        }
        Ok(true)
    }

    /// Whether a definition named `name` exists.
    fn is_defined(&self, name: &str) -> (r: bool)
        ensures
            r == defined(self@, name@),
    {
        let mut k: usize = 0;
        while k < self.definitions.len()
            invariant
                k <= self.definitions@.len(),
                forall|j: int| 0 <= j < k ==> self@.defs[j].0 != name@,
            decreases self.definitions@.len() - k,
        {
            if same(self.definitions[k].name.as_str(), name) {
                assert(self@.defs[k as int].0 == name@);
                return true;
            }
            k += 1;
        }
        false
    }

    /// Handles a directive line: `#f name` opens the definition `name`.
    pub fn read_special_command(&mut self, command: &str, values: &Vec<&str>) -> (r: Result<bool, AsmError>)
        requires
            old(self).wf(),
            values@.len() > 0,
            values@[0] == command,
        ensures
            final(self).wf(),
            match directive(old(self)@, views(values@)) {
                Ok(m) => r == Ok::<bool, AsmError>(true) && final(self)@ == m,
                Err(f) => fails_with(r, f) && final(self)@ == old(self)@,
            },
    {
        if !same(command, "#f") {
            return Err(AsmError::UnknownDirective(String::from_str(command)));
        }
        if self.in_function {
            return Err(AsmError::NestedDefinition);
        }
        if values.len() < 2 {
            return Err(AsmError::MissingName);
        }
        let name = values[1];
        if self.is_defined(name) {
            return Err(AsmError::Redeclared(String::from_str(name)));
        }
        let ghost before = self@;
        self.definitions.push(Definition { name: String::from_str(name), body: Vec::new() });
        self.in_function = true;
        proof {
            assert(self@.defs =~= before.defs.push((name@, seq![])));
            assert forall|j: int| 0 <= j < self@.refs.len() implies reference_wf(self@, #[trigger] self@.refs[j]) by {
                assert(reference_wf(before, before.refs[j]));
            }
        }
        Ok(true)
    }

    /// Records a reference to the subroutine `command` where the next word
    /// goes, and emits a placeholder there.
    pub fn set_reference(&mut self, ram: &mut RAM, command: &str) -> (r: Result<bool, AsmError>)
        requires
            old(self).wf(),
        ensures
            final(self).wf(),
            settles(r, final(self)@, final(ram)@, old(self)@, old(ram)@, reference_line(old(self)@, old(ram)@, command@)),
    {
        let owner = if self.in_function {
            Some(self.definitions.len() - 1)
        } else {
            None
        };
        let position = if self.in_function {
            self.definitions[self.definitions.len() - 1].body.len()
        } else {
            self.offset
        };
        let ghost m0 = self@;
        self.add_instruction(ram, PLACEHOLDER)?;
        let ghost m1 = self@;
        self.references.push(Reference { name: String::from_str(command), owner, position });
        proof {
            let site = here(m0);
            assert(owner_view(owner) == site.0);
            assert(self@.refs =~= m0.refs.push((command@, site.0, site.1)));
            assert forall|j: int| 0 <= j < self@.refs.len() implies reference_wf(self@, #[trigger] self@.refs[j]) by {
                if j < m0.refs.len() {
                    assert(reference_wf(m0, m0.refs[j]));
                    assert(self@.refs[j] == m0.refs[j]);
                }
            }
            assert forall|i: int, j: int| 0 <= i < j < self@.refs.len() implies
                (self@.refs[i].1, self@.refs[i].2) != (self@.refs[j].1, self@.refs[j].2) by {
                if j == m0.refs.len() {
                    assert(reference_wf(m0, m0.refs[i]));
                } else {
                    assert(self@.refs[i] == m0.refs[i]);
                    assert(self@.refs[j] == m0.refs[j]);
                }
            }
        }
        Ok(true)
    }

    /// Reads one source line: blank and comment lines are ignored, a
    /// directive opens a definition, a mnemonic emits its instruction, and
    /// any other token is a reference to a subroutine.
    pub fn interpret_line(&mut self, ram: &mut RAM, line: &str) -> (r: Result<bool, AsmError>)
        requires
            old(self).wf(),
        ensures
            final(self).wf(),
            settles(r, final(self)@, final(ram)@, old(self)@, old(ram)@, line_effect(old(self)@, old(ram)@, line@)),
    {
        let values = words_of(line);
        if values.len() == 0 {
            return Ok(true);
        }
        let command = values[0];
        assert(views(values@)[0] == command@);
        let n = command.unicode_len();
        if n >= 2 && command.get_char(0) == '/' && command.get_char(1) == '/' {
            return Ok(true);
        }
        if n > 0 && command.get_char(0) == '#' {
            return self.read_special_command(command, &values);
        }
        match shape_of(command) {
            Some(Shape::Fixed(w)) => self.add_instruction(ram, w),
            Some(Shape::Ret) => self.add_ret_instruction(ram, 0x00EE),
            Some(Shape::X(g, e)) => self.add_x_instruction(ram, g, &values, e),
            Some(Shape::XY(g, e)) => self.add_x_y_instruction(ram, g, &values, e),
            Some(Shape::XYD(g)) => self.add_x_y_d_instruction(ram, g, &values),
            Some(Shape::XKK(g)) => self.add_x_kk_instruction(ram, g, &values),
            Some(Shape::NNN(g)) => self.add_nnn_instruction(ram, g, &values),
            None => self.set_reference(ram, command),
        }
    }

    /// The index of the definition named `name`, if any.
    fn find_definition(&self, name: &String) -> (r: Option<usize>)
        requires
            self.wf(),
        ensures
            match r {
                Some(k) => k < self@.defs.len() && self@.defs[k as int].0 == name@ && k == target_of(
                    self@,
                    name@,
                ),
                None => !defined(self@, name@),
            },
    {
        let mut k: usize = 0;
        while k < self.definitions.len()
            invariant
                self.wf(),
                k <= self.definitions@.len(),
                forall|j: int| 0 <= j < k ==> self@.defs[j].0 != name@,
            decreases self.definitions@.len() - k,
        {
            if self.definitions[k].name == *name {
                proof {
                    assert(self@.defs[k as int].0 == name@);
                    let t = target_of(self@, name@);
                    assert(0 <= t < self@.defs.len() && self@.defs[t].0 == name@);
                    if t < k {
                        assert(self@.defs[t].0 != self@.defs[k as int].0);
                    } else if t > k {
                        assert(self@.defs[k as int].0 != self@.defs[t].0);
                    }
                }
                return Some(k);
            }
            k += 1;
        }
        None
    }

    /// Appends every definition's body after the program image, in the order
    /// the definitions were opened, and turns every reference into a call to
    /// the start of the definition it names. The tables are emptied.
    pub fn resolve_references(&mut self, ram: &mut RAM) -> (r: Result<(), AsmError>)
        requires
            old(self).wf(),
        ensures
            final(self).wf(),
            match resolution(old(self)@, old(ram)@) {
                Ok(e) => r is Ok && final(self)@ == e.0 && final(ram)@ == e.1,
                Err(f) => fails_with(r, f) && final(self)@ == old(self)@ && final(ram)@ == old(ram)@,
            },
    {
        let ghost m = self@;
        let ghost mem = ram@;
        proof {
            ram.lemma_len();
            lemma_body_words_grow(m.defs, 0, m.defs.len() as int);
        }
        let mut starts: Vec<usize> = Vec::new();
        let mut end: usize = self.offset;
        let mut k: usize = 0;
        while k < self.definitions.len()
            invariant
                self@ == m,
                model_wf(m),
                k <= m.defs.len(),
                starts@.len() == k,
                forall|j: int| 0 <= j < k ==> starts@[j] == start_of(m, j),
                end == start_of(m, k as int),
                end <= PROGRAM_SIZE,
            decreases m.defs.len() - k,
        {
            let len = self.definitions[k].body.len();
            proof {
                lemma_body_words_step(m.defs, k as int);
            }
            if len > (PROGRAM_SIZE - end) / 2 {
                proof {
                    lemma_body_words_grow(m.defs, k + 1, m.defs.len() as int);
                }
                return Err(AsmError::ProgramTooLarge);
            }
            starts.push(end);
            end = end + 2 * len;
            k += 1;
        }
        assert(end == end_of(m));
        let mut targets: Vec<usize> = Vec::new();
        let mut i: usize = 0;
        while i < self.references.len()
            invariant
                self@ == m,
                model_wf(m),
                end == end_of(m),
                end <= PROGRAM_SIZE,
                starts@.len() == m.defs.len(),
                forall|j: int| 0 <= j < m.defs.len() ==> starts@[j] == start_of(m, j),
                i <= m.refs.len(),
                targets@.len() == i,
                forall|j: int|
                    #![trigger targets@[j]]
                    0 <= j < i ==> targets@[j] < m.defs.len() && targets@[j] == target_of(
                        m,
                        m.refs[j].0,
                    ),
                forall|j: int| #![trigger m.refs[j]] 0 <= j < i ==> defined(m, m.refs[j].0),
            decreases m.refs.len() - i,
        {
            match self.find_definition(&self.references[i].name) {
                Some(t) => {
                    proof {
                        assert(self.references@[i as int].name@ == m.refs[i as int].0);
                        assert(m.defs[t as int].0 == m.refs[i as int].0);
                        assert(defined(m, m.refs[i as int].0));
                    }
                    targets.push(t);
                },
                None => {
                    proof {
                        assert(self.references@[i as int].name@ == m.refs[i as int].0);
                        assert(!defined(m, m.refs[i as int].0));
                        assert(0 <= i < m.refs.len() && !defined(m, m.refs[i as int].0) && forall|j: int|
                            0 <= j < i ==> defined(m, m.refs[j].0));
                        assert(has_undefined(m));
                        let f = first_undefined(m);
                        if f < i {
                            assert(defined(m, m.refs[f].0));
                        } else if f > i {
                            assert(defined(m, m.refs[i as int].0));
                        }
                    }
                    let name = self.references[i].name.clone();
                    assert(first_undefined(m) == i);
                    assert(name@ == m.refs[i as int].0);
                    return Err(AsmError::Undefined(name));
                },
            }
            i += 1;
        }
        assert(!has_undefined(m));
        let base = RAM_OFFSET + self.offset;
        let mut at: usize = base;
        k = 0;
        assert(ram@ =~= write_range(mem, base as int, word_bytes(body_words(m.defs.take(0)))));
        while k < self.definitions.len()
            invariant
                self@ == m,
                model_wf(m),
                end == end_of(m),
                end <= PROGRAM_SIZE,
                base == RAM_OFFSET + m.offset,
                k <= m.defs.len(),
                at == base + 2 * body_words(m.defs.take(k as int)).len(),
                ram@.len() == RAM_SIZE,
                mem.len() == RAM_SIZE,
                ram@ == write_range(mem, base as int, word_bytes(body_words(m.defs.take(k as int)))),
            decreases m.defs.len() - k,
        {
            proof {
                lemma_body_words_step(m.defs, k as int);
                lemma_body_words_grow(m.defs, k + 1, m.defs.len() as int);
                assert(body_words(m.defs.take(k as int)) + m.defs[k as int].1.take(0) =~= body_words(
                    m.defs.take(k as int),
                ));
            }
            let mut j: usize = 0;
            while j < self.definitions[k].body.len()
                invariant
                    self@ == m,
                    k < m.defs.len(),
                    j <= m.defs[k as int].1.len(),
                    end == end_of(m),
                    end <= PROGRAM_SIZE,
                    base == RAM_OFFSET + m.offset,
                    base + 2 * body_words(m.defs.take(k + 1)).len() <= RAM_OFFSET + end,
                    body_words(m.defs.take(k + 1)) == body_words(m.defs.take(k as int)) + m.defs[k as int].1,
                    at == base + 2 * (body_words(m.defs.take(k as int)).len() + j),
                    ram@.len() == RAM_SIZE,
                    mem.len() == RAM_SIZE,
                    ram@ == write_range(
                        mem,
                        base as int,
                        word_bytes(body_words(m.defs.take(k as int)) + m.defs[k as int].1.take(j as int)),
                    ),
                decreases m.defs[k as int].1.len() - j,
            {
                let w = self.definitions[k].body[j];
                proof {
                    let ws = body_words(m.defs.take(k as int)) + m.defs[k as int].1.take(j as int);
                    lemma_write_word(mem, base as int, ws, w);
                    assert(ws.push(w) =~= body_words(m.defs.take(k as int)) + m.defs[k as int].1.take(
                        j + 1,
                    ));
                }
                ram.set_u16(at, w);
                at += 2;
                j += 1;
            }
            assert(m.defs[k as int].1.take(j as int) =~= m.defs[k as int].1);
            k += 1;
        }
        assert(ram@ == patched(m, mem, 0));
        i = 0;
        while i < self.references.len()
            invariant
                self@ == m,
                model_wf(m),
                end == end_of(m),
                end <= PROGRAM_SIZE,
                i <= m.refs.len(),
                starts@.len() == m.defs.len(),
                forall|j: int| 0 <= j < m.defs.len() ==> starts@[j] == start_of(m, j),
                targets@.len() == m.refs.len(),
                forall|j: int|
                    #![trigger targets@[j]]
                    0 <= j < m.refs.len() ==> targets@[j] < m.defs.len() && targets@[j] == target_of(
                        m,
                        m.refs[j].0,
                    ),
                ram@.len() == RAM_SIZE,
                ram@ == patched(m, mem, i as int),
            decreases m.refs.len() - i,
        {
            let ghost rv = m.refs[i as int];
            assert(reference_wf(m, rv));
            let site = match self.references[i].owner {
                None => self.references[i].position,
                Some(o) => {
                    proof {
                        lemma_body_words_step(m.defs, o as int);
                        lemma_body_words_grow(m.defs, o + 1, m.defs.len() as int);
                        assert(starts@[o as int] == start_of(m, o as int));
                        assert(start_of(m, o + 1) == start_of(m, o as int) + 2 * m.defs[o as int].1.len());
                        assert(start_of(m, o + 1) <= end_of(m));
                    }
                    starts[o] + 2 * self.references[i].position
                },
            };
            assert(site == site_of(m, rv));
            let t = targets[i];
            assert(targets@[i as int] == t);
            proof {
                lemma_body_words_grow(m.defs, t as int, m.defs.len() as int);
                assert(starts@[t as int] == start_of(m, t as int));
                assert(start_of(m, t as int) <= end_of(m));
            }
            let word = 0x2000 + starts[t] as u16;
            ram.set_u16(RAM_OFFSET + site, word);
            i += 1;
        }
        self.offset = end;
        self.in_function = false;
        self.definitions = Vec::new();
        self.references = Vec::new();
        proof {
            assert(self@.defs =~= seq![]);
            assert(self@.refs =~= seq![]);
        }
        Ok(())
    }
}

} // verus!

verus! {

/// The bodies of the first `n` definitions open the bodies of all of them.
proof fn lemma_body_words_prefix(defs: Seq<(Seq<char>, Seq<u16>)>, n: int)
    requires
        0 <= n <= defs.len(),
    ensures
        body_words(defs.take(n)).len() <= body_words(defs).len(),
        body_words(defs).subrange(0, body_words(defs.take(n)).len() as int) == body_words(defs.take(n)),
    decreases defs.len(),
{
    if n == defs.len() {
        assert(defs.take(n) =~= defs);
        assert(body_words(defs).subrange(0, body_words(defs).len() as int) =~= body_words(defs));
    } else {
        let d = defs.drop_last();
        assert(defs.take(n) =~= d.take(n));
        lemma_body_words_prefix(d, n);
        assert(body_words(defs) == body_words(d) + defs.last().1);
        assert(body_words(defs).subrange(0, body_words(defs.take(n)).len() as int) =~= body_words(
            d,
        ).subrange(0, body_words(d.take(n)).len() as int));
    }
}

/// Word `j` of definition `t` is word `len(bodies before t) + j` of all bodies.
proof fn lemma_body_word_at(defs: Seq<(Seq<char>, Seq<u16>)>, t: int, j: int)
    requires
        0 <= t < defs.len(),
        0 <= j < defs[t].1.len(),
    ensures
        body_words(defs.take(t)).len() + j < body_words(defs).len(),
        body_words(defs)[body_words(defs.take(t)).len() + j] == defs[t].1[j],
{
    lemma_body_words_step(defs, t);
    lemma_body_words_prefix(defs, t + 1);
    let p = body_words(defs.take(t + 1));
    assert(p[body_words(defs.take(t)).len() + j] == defs[t].1[j]);
    assert(body_words(defs).subrange(0, p.len() as int)[body_words(defs.take(t)).len() + j]
        == body_words(defs)[body_words(defs.take(t)).len() + j]);
}

/// Where a reference's placeholder lies once the bodies are appended.
proof fn lemma_site_bounds(m: AsmModel, k: int)
    requires
        model_wf(m),
        0 <= k < m.refs.len(),
    ensures
        site_of(m, m.refs[k]) % 2 == 0,
        0 <= site_of(m, m.refs[k]),
        site_of(m, m.refs[k]) + 2 <= end_of(m),
        m.refs[k].1 is None ==> site_of(m, m.refs[k]) + 2 <= m.offset,
        m.refs[k].1 matches Some(o) ==> start_of(m, o) <= site_of(m, m.refs[k]) && site_of(
            m,
            m.refs[k],
        ) + 2 <= start_of(m, o + 1),
{
    let r = m.refs[k];
    assert(reference_wf(m, r));
    lemma_body_words_grow(m.defs, 0, m.defs.len() as int);
    match r.1 {
        None => {},
        Some(o) => {
            lemma_body_words_step(m.defs, o);
            lemma_body_words_grow(m.defs, o + 1, m.defs.len() as int);
        },
    }
}

/// Distinct references have distinct placeholders.
proof fn lemma_sites_distinct(m: AsmModel, i: int, j: int)
    requires
        model_wf(m),
        0 <= i < m.refs.len(),
        0 <= j < m.refs.len(),
        i != j,
    ensures
        site_of(m, m.refs[i]) != site_of(m, m.refs[j]),
{
    lemma_site_bounds(m, i);
    lemma_site_bounds(m, j);
    let (a, b) = if i < j { (i, j) } else { (j, i) };
    assert((m.refs[a].1, m.refs[a].2) != (m.refs[b].1, m.refs[b].2));
    lemma_body_words_grow(m.defs, 0, m.defs.len() as int);
    match (m.refs[i].1, m.refs[j].1) {
        (Some(p), Some(q)) => {
            if p < q {
                lemma_body_words_grow(m.defs, p + 1, q);
            } else if q < p {
                lemma_body_words_grow(m.defs, q + 1, p);
            }
        },
        (Some(p), None) => {
            lemma_body_words_grow(m.defs, 0, p);
        },
        (None, Some(q)) => {
            lemma_body_words_grow(m.defs, 0, q);
        },
        (None, None) => {},
    }
}

/// After patching the first `n` references each of their placeholders holds
/// its call, and every other word keeps its byte values.
proof fn lemma_patched(m: AsmModel, mem: Seq<u8>, n: int)
    requires
        model_wf(m),
        mem.len() == RAM_SIZE,
        end_of(m) <= PROGRAM_SIZE,
        0 <= n <= m.refs.len(),
    ensures
        patched(m, mem, n).len() == RAM_SIZE,
        forall|k: int|
            0 <= k < n ==> word_at(patched(m, mem, n), RAM_OFFSET + site_of(m, #[trigger] m.refs[k]))
                == call_word(m, m.refs[k].0),
        forall|a: int|
            0 <= a < RAM_SIZE && (forall|k: int|
                0 <= k < n ==> a != RAM_OFFSET + site_of(m, #[trigger] m.refs[k]) && a != RAM_OFFSET
                    + site_of(m, m.refs[k]) + 1) ==> #[trigger] patched(m, mem, n)[a] == patched(
                m,
                mem,
                0,
            )[a],
    decreases n,
{
    if n > 0 {
        lemma_patched(m, mem, n - 1);
        lemma_site_bounds(m, n - 1);
        assert forall|k: int| 0 <= k < n implies word_at(
            patched(m, mem, n),
            RAM_OFFSET + site_of(m, #[trigger] m.refs[k]),
        ) == call_word(m, m.refs[k].0) by {
            if k < n - 1 {
                lemma_sites_distinct(m, k, n - 1);
                lemma_site_bounds(m, k);
            }
        }
    }
}

/// After a successful resolution, the placeholder of every reference holds a
/// call to the start of the definition that carries the reference's name, and
/// every word of a definition's body that is no placeholder sits at its place
/// after the definition's start, so that a call site enters the body it names.
pub proof fn lemma_resolution(m: AsmModel, mem: Seq<u8>)
    requires
        model_wf(m),
        mem.len() == RAM_SIZE,
        resolution(m, mem) is Ok,
    ensures
        ({
            let out = resolution(m, mem)->Ok_0.1;
            &&& forall|k: int|
                0 <= k < m.refs.len() ==> {
                    let t = target_of(m, m.refs[k].0);
                    &&& 0 <= t < m.defs.len()
                    &&& m.defs[t].0 == (#[trigger] m.refs[k]).0
                    &&& start_of(m, t) < 4096
                    &&& word_at(out, RAM_OFFSET + site_of(m, m.refs[k])) == Instruction::Call(
                        start_of(m, t) as u16,
                    ).encoding()
                }
            &&& forall|t: int, j: int|
                0 <= t < m.defs.len() && 0 <= j < m.defs[t].1.len() && (forall|k: int|
                    0 <= k < m.refs.len() ==> #[trigger] m.refs[k].1 != Some(t) || m.refs[k].2 != j)
                    ==> word_at(out, RAM_OFFSET + start_of(m, t) + 2 * j) == #[trigger] m.defs[t].1[j]
        }),
{
    assert forall|k: int| 0 <= k < m.refs.len() implies {
        let t = target_of(m, m.refs[k].0);
        &&& 0 <= t < m.defs.len()
        &&& m.defs[t].0 == (#[trigger] m.refs[k]).0
        &&& start_of(m, t) < 4096
        &&& word_at(resolution(m, mem)->Ok_0.1, RAM_OFFSET + site_of(m, m.refs[k])) == Instruction::Call(
            start_of(m, t) as u16,
        ).encoding()
    } by {
        lemma_resolution_call(m, mem, k);
    }
    assert forall|t: int, j: int|
        0 <= t < m.defs.len() && 0 <= j < m.defs[t].1.len() && (forall|k: int|
            0 <= k < m.refs.len() ==> #[trigger] m.refs[k].1 != Some(t) || m.refs[k].2 != j)
            implies word_at(resolution(m, mem)->Ok_0.1, RAM_OFFSET + start_of(m, t) + 2 * j)
            == #[trigger] m.defs[t].1[j] by {
        lemma_resolution_body(m, mem, t, j);
    }
}

/// The placeholder of reference `k` holds its call after resolution.
proof fn lemma_resolution_call(m: AsmModel, mem: Seq<u8>, k: int)
    requires
        model_wf(m),
        mem.len() == RAM_SIZE,
        resolution(m, mem) is Ok,
        0 <= k < m.refs.len(),
    ensures
        ({
            let t = target_of(m, m.refs[k].0);
            &&& 0 <= t < m.defs.len()
            &&& m.defs[t].0 == m.refs[k].0
            &&& start_of(m, t) < 4096
            &&& word_at(patched(m, mem, m.refs.len() as int), RAM_OFFSET + site_of(m, m.refs[k]))
                == Instruction::Call(start_of(m, t) as u16).encoding()
        }),
{
    lemma_patched(m, mem, m.refs.len() as int);
    if !defined(m, m.refs[k].0) {
        assert(has_undefined(m));
    }
    let t = target_of(m, m.refs[k].0);
    lemma_body_words_grow(m.defs, t, m.defs.len() as int);
}

/// Word `j` of definition `t` sits at its place after resolution unless it
/// is a placeholder.
proof fn lemma_resolution_body(m: AsmModel, mem: Seq<u8>, t: int, j: int)
    requires
        model_wf(m),
        mem.len() == RAM_SIZE,
        resolution(m, mem) is Ok,
        0 <= t < m.defs.len(),
        0 <= j < m.defs[t].1.len(),
        forall|k: int| 0 <= k < m.refs.len() ==> #[trigger] m.refs[k].1 != Some(t) || m.refs[k].2 != j,
    ensures
        word_at(patched(m, mem, m.refs.len() as int), RAM_OFFSET + start_of(m, t) + 2 * j)
            == m.defs[t].1[j],
{
    let n = m.refs.len() as int;
    lemma_patched(m, mem, n);
    let out = patched(m, mem, n);
    let a = RAM_OFFSET + start_of(m, t) + 2 * j;
    lemma_body_word_at(m.defs, t, j);
    lemma_body_words_step(m.defs, t);
    lemma_body_words_grow(m.defs, t + 1, m.defs.len() as int);
    lemma_body_words_grow(m.defs, 0, m.defs.len() as int);
    assert forall|k: int| 0 <= k < n implies a != RAM_OFFSET + site_of(m, #[trigger] m.refs[k])
        && a != RAM_OFFSET + site_of(m, m.refs[k]) + 1 by {
        lemma_site_bounds(m, k);
        match m.refs[k].1 {
            None => {},
            Some(o) => {
                if o < t {
                    lemma_body_words_grow(m.defs, o + 1, t);
                } else if o > t {
                    lemma_body_words_grow(m.defs, t + 1, o);
                }
            },
        }
    }
    assert forall|k: int| 0 <= k < n implies a + 1 != RAM_OFFSET + site_of(m, #[trigger] m.refs[k])
        && a + 1 != RAM_OFFSET + site_of(m, m.refs[k]) + 1 by {
        lemma_site_bounds(m, k);
        match m.refs[k].1 {
            None => {},
            Some(o) => {
                if o < t {
                    lemma_body_words_grow(m.defs, o + 1, t);
                } else if o > t {
                    lemma_body_words_grow(m.defs, t + 1, o);
                }
            },
        }
    }
    let ws = body_words(m.defs);
    let i = body_words(m.defs.take(t)).len() + j;
    let base = RAM_OFFSET + m.offset;
    assert(a - base == 2 * i);
    assert((2 * i) / 2 == i && (2 * i) % 2 == 0 && (2 * i + 1) / 2 == i && (2 * i + 1) % 2 == 1)
        by (nonlinear_arith)
        requires
            i >= 0,
    ;
    assert(patched(m, mem, 0)[a] == high_byte(ws[i]));
    assert(patched(m, mem, 0)[a + 1] == low_byte(ws[i]));
    assert(out[a] == patched(m, mem, 0)[a]);
    assert(out[a + 1] == patched(m, mem, 0)[a + 1]);
}

} // verus!
