//! A turtle-graphics compiler: parses a small textual turtle program into a
//! command sequence, interprets it against a turtle state machine, and
//! accumulates stroked path geometry into a vector scene together with a set
//! of non-fatal diagnostic flags.
//!
//! All coordinates, angles and widths are fixed-point values: `i64` counts of
//! one ten-thousandth of a world unit (see [`fx::SCALE`]).

pub mod ast;
pub mod fx;
pub mod geom;
pub mod interp;
pub mod parse;
pub mod scene;
pub mod viewer;

use vstd::prelude::*;
use vstd::string::StringSliceAdditionalSpecFns;
use crate::interp::{BuiltTurtle, finish_spec, machine_wf, run_prog};
use crate::parse::{ParseError, parse_program, parse_program_spec};

verus! {

/// Compile a turtle program text into a scene and diagnostic flags: the
/// result is `Ok` exactly when the text conforms to the grammar, and then
/// holds the machine the interpretation fold produces; otherwise the first
/// parse error comes back and nothing is interpreted.
pub fn compile(text: &str) -> (r: Result<BuiltTurtle, ParseError>)
    ensures
        match r {
            Ok(built) => parse_program_spec(text.spec_bytes()) matches Ok(cmds) && built@
                == finish_spec(run_prog(cmds)) && machine_wf(built@),
            Err(e) => parse_program_spec(text.spec_bytes()) matches Err(e2) && e == e2,
        },
{
    match parse_program(text.as_bytes()) {
        Ok(cmds) => Ok(BuiltTurtle::from_ast(cmds)),
        Err(e) => Err(e),
    }
}


} // verus!
