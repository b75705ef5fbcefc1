use crate::interpreter::{
    line_effect, resolution, AsmError, AsmFault, AsmModel, Interpreter,
};
use crate::ram::RAM;
use vstd::prelude::*;

verus! {

/// An assembly error and the line it came from: `Some(n)` for the n-th line,
/// counted from 1, or `None` for an error of the resolution pass.
#[derive(Clone, Debug, PartialEq, Eq)]
pub struct LoadError {
    pub line: Option<usize>,
    pub error: AsmError,
}

/// The assembler's state before the first line.
pub open spec fn fresh() -> AsmModel {
    AsmModel { offset: 0, open: false, defs: seq![], refs: seq![] }
}

/// The state and memory after the first pass over `lines`, or the number
/// (from 1) and error of the first line that fails.
pub open spec fn assembled(m: AsmModel, mem: Seq<u8>, lines: Seq<Seq<char>>) -> Result<
    (AsmModel, Seq<u8>),
    (int, AsmFault),
>
    decreases lines.len(),
{
    if lines.len() == 0 {
        Ok((m, mem))
    } else {
        match assembled(m, mem, lines.drop_last()) {
            Err(e) => Err(e),
            Ok(p) => match line_effect(p.0, p.1, lines.last()) {
                Err(f) => Err((lines.len() as int, f)),
                Ok(q) => Ok(q),
            },
        }
    }
}

/// The views of a sequence of strings.
pub open spec fn line_views(lines: Seq<String>) -> Seq<Seq<char>> {
    lines.map_values(|l: String| l@)
}

/// A source of assembly text for the machine.
pub struct Cartridge {}

impl Cartridge {
    /// Assembles `lines` into `ram`, in order, then resolves the references.
    /// The first line that fails stops the assembly: no later line is read,
    /// resolution does not run, and memory holds what the lines before it
    /// wrote. A failing resolution leaves memory as the first pass left it.
    pub fn load(ram: &mut RAM, lines: &Vec<String>) -> (r: Result<(), LoadError>)
        ensures
            match assembled(fresh(), old(ram)@, line_views(lines@)) {
                Err(e) => {
                    &&& 1 <= e.0 <= lines@.len()
                    &&& assembled(fresh(), old(ram)@, line_views(lines@).take(e.0 - 1)) is Ok
                    &&& r matches Err(l) && l.line == Some(e.0 as usize) && l.error@ == e.1
                    &&& final(ram)@ == assembled(
                        fresh(),
                        old(ram)@,
                        line_views(lines@).take(e.0 - 1),
                    )->Ok_0.1
                },
                Ok(p) => match resolution(p.0, p.1) {
                    Err(f) => r matches Err(l) && l.line is None && l.error@ == f && final(ram)@
                        == p.1,
                    Ok(q) => r is Ok && final(ram)@ == q.1,
                },
            },
    {
        let mut interpreter = Interpreter::new();
        let mut k: usize = 0;
        while k < lines.len()
            invariant
                k <= lines@.len(),
                interpreter.wf(),
                assembled(fresh(), old(ram)@, line_views(lines@).take(k as int)) == Ok::<
                    (AsmModel, Seq<u8>),
                    (int, AsmFault),
                >((interpreter@, ram@)),
            decreases lines@.len() - k,
        {
            let ghost before = line_views(lines@).take(k as int);
            let ghost after = line_views(lines@).take(k + 1);
            assert(after.drop_last() =~= before);
            match interpreter.interpret_line(ram, lines[k].as_str()) {
                Ok(_) => {},
                Err(error) => {
                    proof {
                        lemma_failure_stays(old(ram)@, line_views(lines@), k + 1);
                        assert(line_views(lines@).take(k + 1 - 1) =~= before);
                    }
                    return Err(LoadError { line: Some(k + 1), error });
                },
            }
            k += 1;
        }
        assert(line_views(lines@).take(k as int) =~= line_views(lines@));
        match interpreter.resolve_references(ram) {
            Ok(()) => Ok(()),
            Err(error) => Err(LoadError { line: None, error }),
        }
    }
}

/// Once a line fails, the first pass over any longer prefix fails there too.
proof fn lemma_failure_stays(mem: Seq<u8>, lines: Seq<Seq<char>>, k: int)
    requires
        0 < k <= lines.len(),
        assembled(fresh(), mem, lines.take(k)) is Err,
    ensures
        assembled(fresh(), mem, lines) == assembled(fresh(), mem, lines.take(k)),
    decreases lines.len() - k,
{
    if k < lines.len() {
        assert(lines.take(k + 1).drop_last() =~= lines.take(k));
        lemma_failure_stays(mem, lines, k + 1);
    } else {
        assert(lines.take(k) =~= lines);
    }
}

} // verus!
