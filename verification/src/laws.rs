//! Laws that hold of every source text and every execution state.

use vstd::prelude::*;
use crate::brackets::{
    depth, has_unmatched_close, lemma_depth_prefix, lemma_depth_push, lemma_matched_unique,
    matched,
};
use crate::cmd::{instructions, lemma_instructions_prefix, lemma_instructions_step, Cmd};
use crate::machine::{wrap_dec, wrap_inc, Machine, CHUNK};
use crate::program::{parsed, Error, Program};

verus! {

/// A source text that holds no instruction parses to the empty program,
/// which has halted before its first step.
pub proof fn lemma_comments_parse_to_nothing(code: Seq<u8>, r: Result<Program, Error>)
    requires
        forall|i: int| 0 <= i < code.len() ==> Cmd::classify(#[trigger] code[i]) is None,
        parsed(code, r),
    ensures
        instructions(code).len() == 0,
        r is Ok,
        r->Ok_0@.cmds.len() == 0,
        r->Ok_0@.halts(),
{
    lemma_no_instructions(code);
    let cmds = instructions(code);
    assert forall|k: int| 0 <= k <= cmds.len() implies #[trigger] depth(cmds, k) >= 0 by {}
}

/// A source text of comment bytes alone has no instructions.
proof fn lemma_no_instructions(code: Seq<u8>)
    requires
        forall|i: int| 0 <= i < code.len() ==> Cmd::classify(#[trigger] code[i]) is None,
    ensures
        instructions(code).len() == 0,
    decreases code.len(),
{
    if code.len() > 0 {
        lemma_no_instructions(code.drop_last());
        assert(code.last() == code[code.len() - 1]);
    }
}

/// In a well-formed state the jump table sends a `Start` to the `End` that
/// closes it and that `End` back to the `Start`.
pub proof fn lemma_jumps_are_symmetric(m: Machine, a: usize, b: usize)
    requires
        m.wf(),
        matched(m.cmds, a as int, b as int),
    ensures
        m.jumps.contains_key(a),
        m.jumps.contains_key(b),
        m.jumps[a] == b,
        m.jumps[b] == a,
{
    assert(m.cmds[a as int] == Cmd::Start);
    assert(m.cmds[b as int] == Cmd::End);
    lemma_matched_unique(m.cmds, a as int, b as int, a as int, m.jumps[a] as int);
    lemma_matched_unique(m.cmds, a as int, b as int, m.jumps[b] as int, b as int);
}

/// In a well-formed state every bracket has an entry in the jump table, and
/// following the table twice leads back to where one started.
pub proof fn lemma_jump_of_jump_is_identity(m: Machine, p: usize)
    requires
        m.wf(),
        p < m.cmds.len(),
        m.cmds[p as int] == Cmd::Start || m.cmds[p as int] == Cmd::End,
    ensures
        m.jumps.contains_key(p),
        m.jumps.contains_key(m.jumps[p]),
        m.jumps[m.jumps[p]] == p,
{
    let q = m.jumps[p];
    if m.cmds[p as int] == Cmd::Start {
        lemma_jumps_are_symmetric(m, p, q);
    } else {
        lemma_jumps_are_symmetric(m, q, p);
    }
}

/// A `]` at a place where every earlier `[` has been closed makes parsing
/// fail with `UnmatchedClose`.
pub proof fn lemma_lone_close_is_rejected(code: Seq<u8>, n: int, r: Result<Program, Error>)
    requires
        0 <= n < code.len(),
        Cmd::classify(code[n]) == Some(Cmd::End),
        depth(instructions(code.take(n)), instructions(code.take(n)).len() as int) <= 0,
        parsed(code, r),
    ensures
        r matches Err(Error::UnmatchedClose),
{
    let pre = instructions(code.take(n));
    let upto = instructions(code.take(n + 1));
    let cmds = instructions(code);
    lemma_instructions_step(code, n);
    lemma_depth_push(pre, Cmd::End);
    lemma_instructions_prefix(code, n + 1);
    lemma_depth_prefix(upto, cmds, upto.len() as int);
    assert(depth(cmds, upto.len() as int) < 0);
}

/// Without a `]` between the bytes `from` and `to` of a source text the
/// depth at `to` is no less than at `from`.
proof fn lemma_depth_without_close(code: Seq<u8>, from: int, to: int)
    requires
        0 <= from <= to <= code.len(),
        forall|i: int| from <= i < to ==> Cmd::classify(#[trigger] code[i]) != Some(Cmd::End),
    ensures
        depth(instructions(code.take(to)), instructions(code.take(to)).len() as int) >= depth(
            instructions(code.take(from)),
            instructions(code.take(from)).len() as int,
        ),
    decreases to - from,
{
    if from < to {
        lemma_depth_without_close(code, from, to - 1);
        lemma_instructions_step(code, to - 1);
        match Cmd::classify(code[to - 1]) {
            Some(c) => {
                lemma_depth_push(instructions(code.take(to - 1)), c);
            },
            None => {},
        }
    }
}

/// A `[` with no `]` anywhere after it makes parsing fail: with
/// `UnmatchedOpen`, unless a `]` before it closes nothing, which is reported
/// first.
pub proof fn lemma_lone_open_is_rejected(code: Seq<u8>, n: int, r: Result<Program, Error>)
    requires
        0 <= n < code.len(),
        Cmd::classify(code[n]) == Some(Cmd::Start),
        forall|i: int| n < i < code.len() ==> Cmd::classify(#[trigger] code[i]) != Some(Cmd::End),
        parsed(code, r),
    ensures
        r is Err,
        !has_unmatched_close(instructions(code)) ==> r matches Err(Error::UnmatchedOpen),
{
    let pre = instructions(code.take(n));
    let upto = instructions(code.take(n + 1));
    let cmds = instructions(code);
    if !has_unmatched_close(cmds) {
        lemma_instructions_prefix(code, n);
        lemma_depth_prefix(pre, cmds, pre.len() as int);
        assert(depth(cmds, pre.len() as int) >= 0);
        lemma_instructions_step(code, n);
        lemma_depth_push(pre, Cmd::Start);
        lemma_depth_without_close(code, n + 1, code.len() as int);
        assert(code.take(code.len() as int) =~= code);
    }
}

/// A `Start` on a zero cell leaves the counter just past the `End` that
/// closes it, and an `End` on a nonzero cell just past its `Start`, inside
/// the loop; otherwise both move on to the next instruction.
pub proof fn lemma_loops_land_past_partner(m: Machine, a: usize, b: usize, input: Option<u8>)
    requires
        m.wf(),
        0 <= m.ptr < m.tape.len(),
        matched(m.cmds, a as int, b as int),
    ensures
        m.pc == a ==> m.after(input).pc == if m.tape[m.ptr] == 0 {
            b + 1
        } else {
            a + 1
        },
        m.pc == b ==> m.after(input).pc == if m.tape[m.ptr] != 0 {
            a + 1
        } else {
            b + 1
        },
        m.pc == a || m.pc == b ==> m.after(input).tape == m.tape && m.after(input).ptr == m.ptr,
{
    lemma_jumps_are_symmetric(m, a, b);
}

/// Cell arithmetic is arithmetic modulo 256: 255 plus one is 0, 0 minus one
/// is 255, and the two operations undo each other.
pub proof fn lemma_cells_wrap(v: u8)
    ensures
        wrap_inc(v) == (v + 1) % 256,
        wrap_dec(v) == (v - 1) % 256,
        wrap_inc(255) == 0,
        wrap_dec(0) == 255,
        wrap_dec(wrap_inc(v)) == v,
        wrap_inc(wrap_dec(v)) == v,
{
}

/// A `Left` with the pointer on the first cell halts the program: no step
/// changes the state any more.
pub proof fn lemma_left_of_origin_halts(m: Machine)
    requires
        0 <= m.pc < m.cmds.len(),
        m.current() == Cmd::Left,
        m.ptr == 0,
    ensures
        m.halts(),
        m.steppable(),
{
}

/// The tape grows in one case only: a `Right` with the pointer just past
/// the last cell appends one chunk of zero cells. Every other step keeps
/// the tape's length, and no step shrinks the tape or changes a cell other
/// than the current one.
pub proof fn lemma_tape_grows_by_chunks(m: Machine, input: Option<u8>)
    requires
        m.wf(),
        !m.halts(),
        m.accepts(input),
    ensures
        m.after(input).wf(),
        m.current() == Cmd::Right && m.ptr == m.tape.len() ==> {
            &&& m.after(input).tape.len() == m.tape.len() + CHUNK
            &&& m.after(input).tape.take(m.tape.len() as int) == m.tape
            &&& forall|i: int|
                m.tape.len() <= i < m.tape.len() + CHUNK ==> #[trigger] m.after(input).tape[i] == 0
        },
        !(m.current() == Cmd::Right && m.ptr == m.tape.len()) ==> m.after(input).tape.len()
            == m.tape.len(),
        forall|i: int|
            0 <= i < m.tape.len() && i != m.ptr ==> #[trigger] m.after(input).tape[i] == m.tape[i],
{
    if m.current() == Cmd::Right && m.ptr == m.tape.len() {
        assert(m.after(input).tape.take(m.tape.len() as int) =~= m.tape);
    }
    if m.current() == Cmd::Start || m.current() == Cmd::End {
        let p = m.pc as usize;
        assert(m.cmds[p as int] == m.current());
        assert(m.jumps.contains_key(p));
    }
}

/// An `In` at the end of the input stream can always be executed, also
/// with the pointer just past the tape, and changes nothing but the program
/// counter, which moves on to the next instruction.
pub proof fn lemma_end_of_input_keeps_cell(m: Machine)
    requires
        0 <= m.pc < m.cmds.len(),
        m.current() == Cmd::In,
    ensures
        !m.halts(),
        m.accepts(None),
        m.after(None) == (Machine { pc: m.pc + 1, ..m }),
{
}

} // verus!
