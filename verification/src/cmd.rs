//! The instruction set and the classification of source bytes.

use vstd::prelude::*;

verus! {

/// One instruction of the language.
#[derive(Copy, Clone, PartialEq, Eq, Structural, Debug)]
pub enum Cmd {
    /// `>`: move the tape pointer one cell to the right.
    Right,
    /// `<`: move the tape pointer one cell to the left.
    Left,
    /// `+`: add one to the current cell, wrapping.
    Inc,
    /// `-`: subtract one from the current cell, wrapping.
    Dec,
    /// `.`: write the current cell to the output channel.
    Out,
    /// `,`: read one byte from the input channel into the current cell.
    In,
    /// `[`: skip past the matching `]` if the current cell is zero.
    Start,
    /// `]`: go back to the matching `[` if the current cell is not zero.
    End,
}

impl Cmd {
    /// The instruction that a source byte stands for, if any.
    pub open spec fn classify(b: u8) -> Option<Cmd> {
        if b == 62 {
            Some(Cmd::Right)
        } else if b == 60 {
            Some(Cmd::Left)
        } else if b == 43 {
            Some(Cmd::Inc)
        } else if b == 45 {
            Some(Cmd::Dec)
        } else if b == 46 {
            Some(Cmd::Out)
        } else if b == 44 {
            Some(Cmd::In)
        } else if b == 91 {
            Some(Cmd::Start)
        } else if b == 93 {
            Some(Cmd::End)
        } else {
            None
        }
    }

    /// Classifies one source byte; any byte outside the eight instruction
    /// characters is a comment and yields `None`.
    pub fn from_byte(b: u8) -> (r: Option<Cmd>)
        ensures
            r == Cmd::classify(b),
    {
        match b {
            62 => Some(Cmd::Right),
            60 => Some(Cmd::Left),
            43 => Some(Cmd::Inc),
            45 => Some(Cmd::Dec),
            46 => Some(Cmd::Out),
            44 => Some(Cmd::In),
            91 => Some(Cmd::Start),
            93 => Some(Cmd::End),
            _ => None,
        }
    }
}

/// The instructions of a source text, in source order, with every comment
/// byte dropped.
pub open spec fn instructions(code: Seq<u8>) -> Seq<Cmd>
    decreases code.len(),
{
    if code.len() == 0 {
        Seq::empty()
    } else {
        let before = instructions(code.drop_last());
        match Cmd::classify(code.last()) {
            Some(c) => before.push(c),
            None => before,
        }
    }
}

/// Reading one more byte of a source text appends its instruction, if it is
/// one, to the instructions read so far.
pub proof fn lemma_instructions_step(code: Seq<u8>, n: int)
    requires
        0 <= n < code.len(),
    ensures
        instructions(code.take(n + 1)) == match Cmd::classify(code[n]) {
            Some(c) => instructions(code.take(n)).push(c),
            None => instructions(code.take(n)),
        },
{
    assert(code.take(n + 1).drop_last() =~= code.take(n));
    assert(code.take(n + 1).last() == code[n]);
}

/// The instructions of the first `n` bytes of a source text are the first
/// instructions of the whole text.
pub proof fn lemma_instructions_prefix(code: Seq<u8>, n: int)
    requires
        0 <= n <= code.len(),
    ensures
        instructions(code.take(n)).is_prefix_of(instructions(code)),
    decreases code.len(),
{
    if n == code.len() {
        assert(code.take(n) =~= code);
    } else {
        let shorter = code.drop_last();
        assert(shorter.take(n) =~= code.take(n));
        lemma_instructions_prefix(shorter, n);
        let pre = instructions(code.take(n));
        let mid = instructions(shorter);
        let all = instructions(code);
        assert(mid.is_prefix_of(all));
        assert(pre =~= all.subrange(0, pre.len() as int));
    }
}

} // verus!
