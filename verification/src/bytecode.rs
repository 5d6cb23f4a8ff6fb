//! Where in its source a compiled function is.
use vstd::prelude::*;
use crate::engine::{Call, Reply, Step};

verus! {

/// The compiled code of one function, by its address in the engine.
#[derive(Clone, Copy, Debug, PartialEq, Eq, Structural)]
pub struct JSFunctionBytecode {
    ptr: u64,
}

/// The number that the engine reports as a C `int`, as the unsigned number with the same
/// bits: a line or column as it is, and the -1 of a function without debug information as
/// the largest `u32`.
pub open spec fn unsigned(n: i32) -> u32 {
    if n >= 0 {
        n as u32
    } else {
        (n + 0x1_0000_0000) as u32
    }
}

fn to_unsigned(n: i32) -> (r: u32)
    ensures
        r == unsigned(n),
{
    if n >= 0 {
        n as u32
    } else {
        (n as i64 + 0x1_0000_0000) as u32
    }
}

impl JSFunctionBytecode {
    pub closed spec fn spec_as_ptr(&self) -> u64 {
        self.ptr
    }

    /// The function whose compiled code is at `ptr`.
    pub fn from_ptr(ptr: u64) -> (r: JSFunctionBytecode)
        ensures
            r.as_ptr() == ptr,
    {
        JSFunctionBytecode { ptr }
    }

    /// The address of the compiled code.
    #[verifier::when_used_as_spec(spec_as_ptr)]
    pub fn as_ptr(&self) -> (r: u64)
        ensures
            r == self.spec_as_ptr(),
    {
        self.ptr
    }

    /// What [`JSFunctionBytecode::find_line_num`] answers to a log of replies.
    pub open spec fn find_line_num_step<'a>(&self, pc: u32, log: Seq<Reply>) -> Step<'a, u32> {
        if log.len() == 0 {
            Step::Call(Call::FindLineNum { bytecode: self.as_ptr(), pc })
        } else {
            Step::Done(unsigned(log[0].number()))
        }
    }

    /// What [`JSFunctionBytecode::find_column_num`] answers to a log of replies.
    pub open spec fn find_column_num_step<'a>(&self, pc: u32, log: Seq<Reply>) -> Step<'a, u32> {
        if log.len() == 0 {
            Step::Call(Call::FindColumnNum { bytecode: self.as_ptr(), pc })
        } else {
            Step::Done(unsigned(log[0].number()))
        }
    }

    /// What [`JSFunctionBytecode::find_line_col`] answers to a log of replies: the line is
    /// asked for, then the column, and the two are the result.
    pub open spec fn find_line_col_step<'a>(&self, pc: u32, log: Seq<Reply>) -> Step<'a, (u32, u32)> {
        if log.len() == 0 {
            Step::Call(Call::FindLineNum { bytecode: self.as_ptr(), pc })
        } else if log.len() == 1 {
            Step::Call(Call::FindColumnNum { bytecode: self.as_ptr(), pc })
        } else {
            Step::Done((unsigned(log[0].number()), unsigned(log[1].number())))
        }
    }

    /// The source line of the instruction at `pc`.
    pub fn find_line_num<'a>(&self, pc: u32, log: &[Reply]) -> (r: Step<'a, u32>)
        ensures
            r == self.find_line_num_step(pc, log@),
    {
        if log.len() == 0 {
            Step::Call(Call::FindLineNum { bytecode: self.ptr, pc })
        } else {
            Step::Done(to_unsigned(log[0].number()))
        }
    }

    /// The source column of the instruction at `pc`.
    pub fn find_column_num<'a>(&self, pc: u32, log: &[Reply]) -> (r: Step<'a, u32>)
        ensures
            r == self.find_column_num_step(pc, log@),
    {
        if log.len() == 0 {
            Step::Call(Call::FindColumnNum { bytecode: self.ptr, pc })
        } else {
            Step::Done(to_unsigned(log[0].number()))
        }
    }

    /// The source line and column of the instruction at `pc`.
    pub fn find_line_col<'a>(&self, pc: u32, log: &[Reply]) -> (r: Step<'a, (u32, u32)>)
        ensures
            r == self.find_line_col_step(pc, log@),
    {
        if log.len() == 0 {
            Step::Call(Call::FindLineNum { bytecode: self.ptr, pc })
        } else if log.len() == 1 {
            Step::Call(Call::FindColumnNum { bytecode: self.ptr, pc })
        } else {
            Step::Done((to_unsigned(log[0].number()), to_unsigned(log[1].number())))
        }
    }
}

/// The line and column that [`JSFunctionBytecode::find_line_col`] gives are those that
/// [`JSFunctionBytecode::find_line_num`] and [`JSFunctionBytecode::find_column_num`] give
/// for the same replies, and it asks the engine what they ask.
pub proof fn law_line_col_is_line_and_col(code: JSFunctionBytecode, pc: u32, line: Reply, column: Reply)
    ensures
        code.find_line_num_step(pc, seq![]) matches Step::Call(first) && code.find_line_col_step(
            pc,
            seq![],
        ) == Step::<(u32, u32)>::Call(first),
        code.find_column_num_step(pc, seq![]) matches Step::Call(second)
            && code.find_line_col_step(pc, seq![line]) == Step::<(u32, u32)>::Call(second),
        code.find_line_num_step(pc, seq![line]) matches Step::Done(l) && code.find_column_num_step(
            pc,
            seq![column],
        ) matches Step::Done(c) && code.find_line_col_step(pc, seq![line, column]) == Step::Done(
            (l, c),
        ),
{
}

} // verus!
