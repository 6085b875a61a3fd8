//! Compile errors.
use vstd::prelude::*;
use vstd::string::*;

verus! {

/// Why compilation stopped.
#[derive(Debug)]
pub enum CompileError {
    /// A diagnostic that points at a token of the source.
    AtToken { start: usize, len: usize, msg: String },
    /// A diagnostic that points at a position of the source text.
    AtInput { pos: usize, msg: String },
    /// The input is outside what the compiler handles and no source position
    /// is reported (a missing token at the end of the input, a number or a
    /// size that does not fit the machine, a construct that cannot be typed).
    Abort { msg: String },
}

pub enum CompileErrorV {
    AtToken { start: usize, len: usize, msg: Seq<char> },
    AtInput { pos: usize, msg: Seq<char> },
    Abort { msg: Seq<char> },
}

pub open spec fn errv(e: CompileError) -> CompileErrorV {
    match e {
        CompileError::AtToken { start, len, msg } => CompileErrorV::AtToken {
            start,
            len,
            msg: msg@,
        },
        CompileError::AtInput { pos, msg } => CompileErrorV::AtInput { pos, msg: msg@ },
        CompileError::Abort { msg } => CompileErrorV::Abort { msg: msg@ },
    }
}

impl View for CompileError {
    type V = CompileErrorV;

    open spec fn view(&self) -> CompileErrorV {
        errv(*self)
    }
}

/// A diagnostic at the token that starts at `start` and is `len` long.
pub fn err_at(start: usize, len: usize, msg: &str) -> (e: CompileError)
    ensures
        e@ == (CompileErrorV::AtToken { start, len, msg: msg@ }),
{
    CompileError::AtToken { start, len, msg: String::from_str(msg) }
}

/// An abort with the given reason.
pub fn abort(msg: &str) -> (e: CompileError)
    ensures
        e@ == (CompileErrorV::Abort { msg: msg@ }),
{
    CompileError::Abort { msg: String::from_str(msg) }
}

} // verus!
