use vstd::prelude::*;
use vstd::string::StringSliceAdditionalSpecFns;

use crate::codegen::{all_wf, compile_program, gen_program, lemma_program_correct, ready, returns_result};
use crate::eval::eval_program;
use crate::machine::{Instr, MachineState};
use crate::parse::{parse_program, program, ParseError};
use crate::token::{lex, tokenize, Node, TokenizeError};

verus! {

/// Why source text could not be compiled.
#[derive(Clone, Copy, Debug, PartialEq, Eq, Structural)]
pub enum CompileError {
    Tokenize(TokenizeError),
    Parse(ParseError),
}

/// The statements that the bytes `b` of a source text spell, or the first
/// error met in reading them.
pub open spec fn source_program(b: Seq<u8>) -> Result<Seq<Node>, CompileError> {
    match lex(b, 0) {
        Err(e) => Err(CompileError::Tokenize(e)),
        Ok(ts) => match parse_program(ts, 0) {
            Err(e) => Err(CompileError::Parse(e)),
            Ok(ns) => Ok(ns),
        },
    }
}

/// Compiles source text into the instructions of its program body: the
/// code of each statement followed by `pop rax`. Run by the machine model
/// (`machine::run`) on any state with a frame in place, that code leaves the
/// value of the last statement in `rax`. The model accepts every 64-bit
/// literal in `push`; see `Instr::PushImm` for the limit of real encodings.
pub fn compile_source(src: &str) -> (r: Result<Vec<Instr>, CompileError>)
    ensures
        match source_program(src.spec_bytes()) {
            Err(e) => r == Err::<Vec<Instr>, CompileError>(e),
            Ok(ns) => {
                &&& r is Ok
                &&& r->Ok_0@ == compile_program(ns)
                &&& forall|s: MachineState| #[trigger] ready(s) ==> returns_result(s, r->Ok_0@, eval_program(ns, s.frame, s.rax))
            },
        },
{
    let mut tokens = match tokenize(src) {
        Ok(t) => t,
        Err(e) => return Err(CompileError::Tokenize(e)),
    };
    let mut pos: usize = 0;
    let nodes = match program(&mut tokens, &mut pos) {
        Ok(n) => n,
        Err(e) => return Err(CompileError::Parse(e)),
    };
    assert(all_wf(nodes@));
    let code = gen_program(&nodes);
    assert forall|s: MachineState| #[trigger] ready(s) implies returns_result(s, code@, eval_program(nodes@, s.frame, s.rax)) by {
        lemma_program_correct(nodes@, s);
    }
    Ok(code)
}

} // verus!
