//! The interpreter: parsing a source text and executing it step by step.

use std::collections::HashMap;
use std::io::{Read, Write};
use vstd::prelude::*;
use crate::brackets::{
    balanced, delta, depth, has_unmatched_close, has_unmatched_open, matched, resolves,
};
use crate::channel::{is_end_of_stream, read_one, read_rest, write_one};
use crate::cmd::{instructions, lemma_instructions_step, Cmd};
use crate::machine::{zeros, Machine, CHUNK};

verus! {

broadcast use vstd::std_specs::hash::group_hash_axioms;

/// Why a program could not be parsed or could not go on.
#[derive(Debug)]
pub enum Error {
    /// A `[` is never closed.
    UnmatchedOpen,
    /// A `]` closes nothing.
    UnmatchedClose,
    /// A channel failed, other than by reaching the end of the input.
    IoFault(std::io::Error),
}

/// A parsed program together with its execution state.
#[derive(Debug)]
pub struct Program {
    cmds: Vec<Cmd>,
    data: Vec<u8>,
    pc: usize,
    ptr: usize,
    loops: HashMap<usize, usize>,
}

impl View for Program {
    type V = Machine;

    closed spec fn view(&self) -> Machine {
        Machine {
            cmds: self.cmds@,
            jumps: self.loops@,
            tape: self.data@,
            pc: self.pc as int,
            ptr: self.ptr as int,
        }
    }
}

/// The state in which a program with the instructions `cmds` starts: a tape
/// of one chunk of zero cells, counter and pointer at 0.
pub open spec fn starts(m: Machine, cmds: Seq<Cmd>) -> bool {
    &&& m.wf()
    &&& m.cmds == cmds
    &&& m.tape == zeros(CHUNK as nat)
    &&& m.pc == 0
    &&& m.ptr == 0
}

/// `r` is the result of parsing `code`: the error that its brackets call
/// for, or else the program of its instructions in its starting state.
pub open spec fn parsed(code: Seq<u8>, r: Result<Program, Error>) -> bool {
    let cmds = instructions(code);
    if has_unmatched_close(cmds) {
        r matches Err(Error::UnmatchedClose)
    } else if has_unmatched_open(cmds) {
        r matches Err(Error::UnmatchedOpen)
    } else {
        r matches Ok(p) && starts(p@, cmds)
    }
}

/// `r` and `post` are a possible outcome of one step from `pre`, whatever
/// the channels do. A halted state stays as it is and yields `Ok(false)`.
/// Otherwise the step yields `Ok(true)` and the state after the instruction,
/// where an `In` may have read any byte or met the end of the stream; or, on
/// an `Out` or an `In` only, a channel fault and the state unchanged.
pub open spec fn steps_to(pre: Machine, r: Result<bool, Error>, post: Machine) -> bool {
    if pre.halts() {
        r matches Ok(false) && post == pre
    } else {
        match r {
            Ok(running) => running && match pre.current() {
                Cmd::In => exists|input: Option<u8>| post == #[trigger] pre.after(input),
                _ => post == pre.after(None),
            },
            Err(e) => e is IoFault && post == pre && (pre.current() == Cmd::Out || pre.current()
                == Cmd::In),
        }
    }
}

/// The `t`-th pending `Start` of the first `n` instructions sits at
/// `stack[t]`, at depth `t`, and nothing after it has closed it.
spec fn open_at(cmds: Seq<Cmd>, n: int, stack: Seq<usize>, t: int) -> bool {
    let s = stack[t] as int;
    &&& 0 <= s < n
    &&& cmds[s] == Cmd::Start
    &&& depth(cmds, s) == t
    &&& forall|k: int| s < k <= n ==> #[trigger] depth(cmds, k) > t
}

/// The bracket at `p`, if there is one, is either still pending on `stack`
/// or entered in `jumps` with its partner.
spec fn settled(cmds: Seq<Cmd>, stack: Seq<usize>, jumps: Map<usize, usize>, p: usize) -> bool {
    match cmds[p as int] {
        Cmd::Start => {
            ||| (0 <= depth(cmds, p as int) < stack.len() && stack[depth(cmds, p as int)] == p)
            ||| (jumps.contains_key(p) && matched(cmds, p as int, jumps[p] as int))
        },
        Cmd::End => jumps.contains_key(p) && matched(cmds, jumps[p] as int, p as int),
        _ => true,
    }
}

/// What holds after the first `n` instructions have been resolved: no `End`
/// among them closed nothing, `stack` holds the `Start`s that are still
/// open, innermost last, and `jumps` pairs up all the other brackets.
spec fn resolved_upto(cmds: Seq<Cmd>, n: int, stack: Seq<usize>, jumps: Map<usize, usize>) -> bool {
    &&& 0 <= n <= cmds.len()
    &&& forall|k: int| 0 <= k <= n ==> #[trigger] depth(cmds, k) >= 0
    &&& stack.len() == depth(cmds, n)
    &&& forall|t: int| 0 <= t < stack.len() ==> #[trigger] open_at(cmds, n, stack, t)
    &&& forall|p: usize| p < n ==> #[trigger] settled(cmds, stack, jumps, p)
    &&& forall|p: usize| #[trigger]
        jumps.contains_key(p) ==> p < n && (cmds[p as int] == Cmd::Start || cmds[p as int]
            == Cmd::End)
}

/// Resolving one more instruction: a `Start` is pushed, an `End` pops its
/// `Start` and enters the pair in both directions, anything else changes
/// nothing.
spec fn resolves_next(
    cmds: Seq<Cmd>,
    n: int,
    before: Seq<usize>,
    jumps: Map<usize, usize>,
    stack: Seq<usize>,
    next: Map<usize, usize>,
) -> bool {
    match cmds[n] {
        Cmd::Start => stack == before.push(n as usize) && next == jumps,
        Cmd::End => {
            &&& before.len() > 0
            &&& stack == before.drop_last()
            &&& next == jumps.insert(before.last(), n as usize).insert(n as usize, before.last())
        },
        _ => stack == before && next == jumps,
    }
}

/// One step of resolving keeps what holds of the instructions resolved.
proof fn lemma_resolves_next(
    cmds: Seq<Cmd>,
    n: int,
    before: Seq<usize>,
    jumps: Map<usize, usize>,
    stack: Seq<usize>,
    next: Map<usize, usize>,
)
    requires
        n < cmds.len() <= usize::MAX,
        resolved_upto(cmds, n, before, jumps),
        resolves_next(cmds, n, before, jumps, stack, next),
    ensures
        resolved_upto(cmds, n + 1, stack, next),
{
    assert(depth(cmds, n + 1) == depth(cmds, n) + delta(cmds[n]));
    if cmds[n] == Cmd::End {
        let top = before.len() - 1;
        assert(open_at(cmds, n, before, top));
        assert(matched(cmds, before.last() as int, n));
    }
    assert forall|t: int| 0 <= t < stack.len() implies #[trigger] open_at(cmds, n + 1, stack, t) by {
        if t < before.len() {
            assert(open_at(cmds, n, before, t));
        }
    }
    assert forall|p: usize| p < n + 1 implies #[trigger] settled(cmds, stack, next, p) by {
        if p < n {
            assert(settled(cmds, before, jumps, p));
        }
    }
}

/// Drops the comment bytes of a source text.
fn scan(code: &[u8]) -> (cmds: Vec<Cmd>)
    ensures
        cmds@ == instructions(code@),
{
    let mut cmds: Vec<Cmd> = Vec::new();
    let mut n: usize = 0;
    while n < code.len()
        invariant
            n <= code.len(),
            cmds@ == instructions(code@.take(n as int)),
        decreases code.len() - n,
    {
        proof {
            lemma_instructions_step(code@, n as int);
        }
        match Cmd::from_byte(code[n]) {
            Some(c) => cmds.push(c),
            None => {},
        }
        n += 1;
    }
    proof {
        assert(code@.take(n as int) =~= code@);
    }
    cmds
}

/// Builds the jump table in one pass, with a stack of the positions of the
/// `Start`s that are still open.
fn resolve(cmds: &Vec<Cmd>) -> (r: Result<HashMap<usize, usize>, Error>)
    ensures
        match r {
            Ok(loops) => balanced(cmds@) && resolves(cmds@, loops@),
            Err(Error::UnmatchedClose) => has_unmatched_close(cmds@),
            Err(Error::UnmatchedOpen) => has_unmatched_open(cmds@),
            Err(Error::IoFault(_)) => false,
        },
{
    let mut loops: HashMap<usize, usize> = HashMap::new();
    let mut stack: Vec<usize> = Vec::new();
    let mut i: usize = 0;
    while i < cmds.len()
        invariant
            resolved_upto(cmds@, i as int, stack@, loops@),
        decreases cmds.len() - i,
    {
        let ghost before = stack@;
        let ghost jumps = loops@;
        match cmds[i] {
            Cmd::Start => {
                stack.push(i);
            },
            Cmd::End => {
                match stack.pop() {
                    Some(start) => {
                        loops.insert(start, i);
                        loops.insert(i, start);
                        assert(stack@ =~= before.drop_last());
                    },
                    None => {
                        assert(depth(cmds@, i + 1) < 0);
                        return Err(Error::UnmatchedClose);
                    },
                }
            },
            _ => {},
        }
        proof {
            lemma_resolves_next(cmds@, i as int, before, jumps, stack@, loops@);
        }
        i += 1;
    }
    if !stack.is_empty() {
        return Err(Error::UnmatchedOpen);
    }
    proof {
        assert forall|p: usize|
            p < cmds@.len() && (#[trigger] cmds@[p as int]) == Cmd::Start implies loops@.contains_key(p)
            && matched(cmds@, p as int, loops@[p] as int) by {
            assert(settled(cmds@, stack@, loops@, p));
        }
        assert forall|p: usize|
            p < cmds@.len() && (#[trigger] cmds@[p as int]) == Cmd::End implies loops@.contains_key(p)
            && matched(cmds@, loops@[p] as int, p as int) by {
            assert(settled(cmds@, stack@, loops@, p));
        }
    }
    Ok(loops)
}

impl Program {
    /// The state is well formed: see [`Machine::wf`].
    pub open spec fn wf(&self) -> bool {
        self@.wf()
    }

    /// Counter and pointer are machine indices, whatever the state.
    pub proof fn lemma_view_bounds(&self)
        ensures
            0 <= self@.pc <= usize::MAX,
            0 <= self@.ptr <= usize::MAX,
            self@.cmds.len() <= usize::MAX,
            self@.tape.len() <= usize::MAX,
    {
        assert(self.cmds.len() <= usize::MAX);
        assert(self.data.len() <= usize::MAX);
    }

    /// Parses a source text. Bytes other than the eight instruction
    /// characters are comments. Fails with `UnmatchedClose` if some `]` has no
    /// `[` to close, else with `UnmatchedOpen` if some `[` stays open; else
    /// returns the program in its starting state, every bracket resolved.
    pub fn parse(code: &[u8]) -> (r: Result<Program, Error>)
        ensures
            parsed(code@, r),
    {
        let cmds = scan(code);
        match resolve(&cmds) {
            Ok(loops) => {
                let data = vec![0u8; CHUNK];
                assert(data@ =~= zeros(CHUNK as nat));
                assert(cmds.len() <= usize::MAX);
                Ok(Program { cmds, data, pc: 0, ptr: 0, loops })
            },
            Err(e) => Err(e),
        }
    }

    /// Reads a whole source text from `file` and parses it. The result is
    /// the reader's fault, or what `parse` returns for the bytes read.
    pub fn load<R: Read>(mut file: R) -> (r: Result<Program, Error>)
        ensures
            r matches Err(Error::IoFault(_)) || exists|code: Seq<u8>| parsed(code, r),
    {
        let mut data: Vec<u8> = Vec::new();
        match read_rest(&mut file, &mut data) {
            Ok(_) => Program::parse(data.as_slice()),
            Err(e) => Err(Error::IoFault(e)),
        }
    }

    /// The program counter: the position of the next instruction.
    pub fn pc(&self) -> (r: usize)
        ensures
            r == self@.pc,
    {
        self.pc
    }

    /// The tape pointer: the position of the current cell.
    pub fn ptr(&self) -> (r: usize)
        ensures
            r == self@.ptr,
    {
        self.ptr
    }

    /// The instructions, in source order.
    pub fn commands(&self) -> (r: &Vec<Cmd>)
        ensures
            r@ == self@.cmds,
    {
        &self.cmds
    }

    /// The jump table's entry for the position `at`: the partner of the
    /// bracket there, or `None` where the table has no entry.
    pub fn jump(&self, at: usize) -> (r: Option<usize>)
        ensures
            r == if self@.jumps.contains_key(at) {
                Some(self@.jumps[at])
            } else {
                None
            },
    {
        match self.loops.get(&at) {
            Some(to) => Some(*to),
            None => None,
        }
    }

    /// The tape.
    pub fn tape(&self) -> (r: &Vec<u8>)
        ensures
            r@ == self@.tape,
    {
        &self.data
    }

    /// The value of the current cell.
    pub fn cell(&self) -> (r: u8)
        requires
            self@.ptr < self@.tape.len(),
        ensures
            r == self@.tape[self@.ptr],
            0 <= self@.ptr,
            0 <= self@.pc,
    {
        self.data[self.ptr]
    }

    /// Stores `val` in the current cell.
    pub fn set_cell(&mut self, val: u8)
        requires
            old(self)@.ptr < old(self)@.tape.len(),
        ensures
            final(self)@ == (Machine { tape: old(self)@.tape.update(old(self)@.ptr, val), ..old(self)@ }),
            0 <= old(self)@.ptr,
            0 <= old(self)@.pc,
    {
        self.data[self.ptr] = val;
    }

    /// Whether `step` can run the next instruction, whatever the channels
    /// do: see [`Machine::steppable`].
    pub fn can_step(&self) -> (r: bool)
        requires
            self.wf(),
        ensures
            r == self@.steppable(),
    {
        if self.pc >= self.cmds.len() {
            return true;
        }
        match self.cmds[self.pc] {
            Cmd::Right => self.ptr < self.data.len() || self.data.len() <= usize::MAX - CHUNK,
            Cmd::Left => true,
            _ => self.ptr < self.data.len(),
        }
    }

    /// Whether `execute` can run the next instruction on the input `input`:
    /// see [`Machine::accepts`].
    pub fn can_execute(&self, input: Option<u8>) -> (r: bool)
        requires
            self.wf(),
        ensures
            r == self@.accepts(input),
    {
        self.can_step() || (self.wants_input() && input.is_none())
    }

    /// The byte that the next instruction sends to the output channel, if it
    /// is an `Out`.
    pub fn pending_output(&self) -> (r: Option<u8>)
        requires
            self.wf(),
            self@.steppable(),
        ensures
            r == self@.output(),
    {
        if self.pc < self.cmds.len() {
            match self.cmds[self.pc] {
                Cmd::Out => Some(self.cell()),
                _ => None,
            }
        } else {
            None
        }
    }

    /// Whether the next instruction is an `In`, which reads the input
    /// channel.
    pub fn wants_input(&self) -> (r: bool)
        ensures
            r == (self@.pc < self@.cmds.len() && self@.current() == Cmd::In),
    {
        if self.pc < self.cmds.len() {
            match self.cmds[self.pc] {
                Cmd::In => true,
                _ => false,
            }
        } else {
            false
        }
    }

    /// Executes the next instruction on the state alone, given what the
    /// input channel delivered in case the instruction is an `In`: a byte, or
    /// `None` at the end of the stream. Returns `false`, with the state
    /// unchanged, if the program has halted, else `true`. An `In` at the end
    /// of the stream needs no cell under the pointer.
    pub fn execute(&mut self, input: Option<u8>) -> (running: bool)
        requires
            old(self).wf(),
            old(self)@.accepts(input),
        ensures
            final(self).wf(),
            running == !old(self)@.halts(),
            old(self)@.halts() ==> final(self)@ == old(self)@,
            !old(self)@.halts() ==> final(self)@ == old(self)@.after(input),
    {
        if self.pc >= self.cmds.len() {
            return false;
        }
        match self.cmds[self.pc] {
            Cmd::Right => {
                if self.ptr == self.data.len() {
                    let ghost prior = self.data@;
                    self.data.resize(self.data.len() + CHUNK, 0);
                    assert(self.data@ =~= prior + zeros(CHUNK as nat));
                }
                self.ptr += 1;
            },
            Cmd::Left => {
                if self.ptr == 0 {
                    return false;
                }
                self.ptr -= 1;
            },
            Cmd::Inc => {
                let v = self.cell().wrapping_add(1);
                self.set_cell(v);
            },
            Cmd::Dec => {
                let v = self.cell().wrapping_sub(1);
                self.set_cell(v);
            },
            Cmd::Out => {},
            Cmd::In => {
                match input {
                    Some(b) => self.set_cell(b),
                    None => {},
                }
            },
            Cmd::Start => {
                if self.data[self.ptr] == 0 {
                    self.pc = *self.loops.get(&self.pc).unwrap();
                }
            },
            Cmd::End => {
                if self.data[self.ptr] != 0 {
                    self.pc = *self.loops.get(&self.pc).unwrap();
                }
            },
        }
        self.pc += 1;
        true
    }

    /// Executes the instruction under the program counter, writing to `cout`
    /// for an `Out` and reading from `cin` for an `In`.
    ///
    /// Returns `Ok(true)` if the program goes on and `Ok(false)`, with the
    /// state unchanged, if it has halted. A fault of a channel is returned
    /// as `IoFault` and leaves the state unchanged; the end of the input
    /// stream is no fault and leaves the current cell as it was. Only an
    /// `In` touches `cin` and only an `Out` touches `cout`.
    pub fn step<R: Read, W: Write>(&mut self, cin: &mut R, cout: &mut W) -> (r: Result<bool, Error>)
        requires
            old(self).wf(),
            old(self)@.steppable(),
        ensures
            final(self).wf(),
            steps_to(old(self)@, r, final(self)@),
            old(self)@.halts() || old(self)@.current() != Cmd::In ==> *final(cin) == *old(cin),
            old(self)@.halts() || old(self)@.current() != Cmd::Out ==> *final(cout) == *old(cout),
    {
        let mut input: Option<u8> = None;
        if self.wants_input() {
            match read_one(cin) {
                Ok(b) => {
                    input = Some(b);
                },
                Err(e) => {
                    if !is_end_of_stream(&e) {
                        return Err(Error::IoFault(e));
                    }
                },
            }
        }
        match self.pending_output() {
            Some(b) => match write_one(cout, b) {
                Ok(_) => {},
                Err(e) => {
                    return Err(Error::IoFault(e));
                },
            },
            None => {},
        }
        Ok(self.execute(input))
    }
}

} // verus!
