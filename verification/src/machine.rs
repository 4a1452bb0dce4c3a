//! The mathematical model of an execution state and of one step.

use vstd::prelude::*;
use crate::brackets::{balanced, resolves};
use crate::cmd::Cmd;

verus! {

/// The number of cells of a fresh tape, and of each chunk it grows by.
pub const CHUNK: usize = 1024;

/// A run of `n` zero cells.
pub open spec fn zeros(n: nat) -> Seq<u8> {
    Seq::new(n, |i: int| 0u8)
}

/// A cell value plus one, modulo 256.
pub open spec fn wrap_inc(v: u8) -> u8 {
    if v == 255 {
        0u8
    } else {
        (v + 1) as u8
    }
}

/// A cell value minus one, modulo 256.
pub open spec fn wrap_dec(v: u8) -> u8 {
    if v == 0 {
        255u8
    } else {
        (v - 1) as u8
    }
}

/// An execution state: the program with its jump table, the tape, the
/// program counter and the tape pointer.
pub struct Machine {
    pub cmds: Seq<Cmd>,
    pub jumps: Map<usize, usize>,
    pub tape: Seq<u8>,
    pub pc: int,
    pub ptr: int,
}

impl Machine {
    /// The brackets balance, the jump table resolves them, and the pointer
    /// is on the tape or just past its end.
    pub open spec fn wf(self) -> bool {
        &&& balanced(self.cmds)
        &&& resolves(self.cmds, self.jumps)
        &&& self.cmds.len() <= usize::MAX
        &&& self.tape.len() <= usize::MAX
        &&& 0 <= self.pc <= usize::MAX
        &&& 0 <= self.ptr <= self.tape.len()
    }

    /// The instruction under the program counter.
    pub open spec fn current(self) -> Cmd
        recommends
            0 <= self.pc < self.cmds.len(),
    {
        self.cmds[self.pc]
    }

    /// No instruction is left, or the next one would move the pointer left
    /// of the first cell.
    pub open spec fn halts(self) -> bool {
        ||| self.pc >= self.cmds.len()
        ||| (self.current() == Cmd::Left && self.ptr == 0)
    }

    /// The next instruction can be executed: one that touches the current
    /// cell finds the pointer on the tape, and one that has to grow the tape
    /// leaves its length within the machine's limits.
    pub open spec fn steppable(self) -> bool {
        self.pc < self.cmds.len() ==> match self.current() {
            Cmd::Right => self.ptr == self.tape.len() ==> self.tape.len() + CHUNK <= usize::MAX,
            Cmd::Left => true,
            _ => self.ptr < self.tape.len(),
        }
    }

    /// The next instruction can be executed on the input `input`: the state
    /// is steppable, or the instruction is an `In` at the end of the stream,
    /// which leaves the cell alone and so needs none under the pointer.
    pub open spec fn accepts(self, input: Option<u8>) -> bool {
        ||| self.steppable()
        ||| (self.pc < self.cmds.len() && self.current() == Cmd::In && input is None)
    }

    /// The tape after the next instruction, where `input` is what the input
    /// channel gave if that instruction reads: a byte, or `None` at the end
    /// of the stream.
    pub open spec fn tape_after(self, input: Option<u8>) -> Seq<u8> {
        match self.current() {
            Cmd::Right => if self.ptr == self.tape.len() {
                self.tape + zeros(CHUNK as nat)
            } else {
                self.tape
            },
            Cmd::Inc => self.tape.update(self.ptr, wrap_inc(self.tape[self.ptr])),
            Cmd::Dec => self.tape.update(self.ptr, wrap_dec(self.tape[self.ptr])),
            Cmd::In => match input {
                Some(b) => self.tape.update(self.ptr, b),
                None => self.tape,
            },
            _ => self.tape,
        }
    }

    /// The tape pointer after the next instruction.
    pub open spec fn ptr_after(self) -> int {
        match self.current() {
            Cmd::Right => self.ptr + 1,
            Cmd::Left => self.ptr - 1,
            _ => self.ptr,
        }
    }

    /// The program counter after the next instruction: one past the partner
    /// bracket where a loop is skipped or repeated, else one further.
    pub open spec fn pc_after(self) -> int {
        match self.current() {
            Cmd::Start => if self.tape[self.ptr] == 0 {
                self.jumps[self.pc as usize] + 1
            } else {
                self.pc + 1
            },
            Cmd::End => if self.tape[self.ptr] != 0 {
                self.jumps[self.pc as usize] + 1
            } else {
                self.pc + 1
            },
            _ => self.pc + 1,
        }
    }

    /// The state after the next instruction of a state that does not halt.
    pub open spec fn after(self, input: Option<u8>) -> Machine {
        Machine {
            cmds: self.cmds,
            jumps: self.jumps,
            tape: self.tape_after(input),
            pc: self.pc_after(),
            ptr: self.ptr_after(),
        }
    }

    /// The byte that the next instruction writes to the output channel, if
    /// it writes one.
    pub open spec fn output(self) -> Option<u8> {
        if !self.halts() && self.current() == Cmd::Out {
            Some(self.tape[self.ptr])
        } else {
            None
        }
    }
}

} // verus!
